//! The interpolation context: every name-derived and git-derived field
//! a template placeholder can refer to, built from one project name,
//! an optional prefix, per-file flags and the local git identity.
//!
//! Reading the git configuration is a subprocess call and lives in the
//! unverified shell; it hands the raw values in as a [`GitIdentity`]
//! with the empty string standing for an unset or failed lookup.

use vstd::prelude::*;

use crate::chars::{chars_of, extend_vec, lower_seq, lower_vec, string_of};
use crate::naming::{
    camel_case, camel_of, constant_array, constant_name, constant_of, constant_parts_of,
    makefile_of, makefile_path, namespaced_of, namespaced_path, pascal_case, pascal_of,
    scream_case, scream_of, str_views, title_case, title_of, underscored_name, underscored_of,
    unprefixed_name, unprefixed_of, unprefixed_pascal, unprefixed_pascal_of,
};

verus! {

/// The resolved set of fields available to templates.
#[derive(Debug, Clone)]
pub struct InterpolationConfig {
    pub name: String,
    pub title: String,
    pub unprefixed_name: String,
    pub unprefixed_pascal: String,
    pub underscored_name: String,
    pub pascal_name: String,
    pub camel_name: String,
    pub screamcase_name: String,
    pub namespaced_path: String,
    pub makefile_path: String,
    pub constant_name: String,
    pub constant_array: Vec<String>,
    pub author: String,
    pub email: String,
    pub git_repo_domain: String,
    pub git_repo_url: String,
    pub git_repo_path: String,
    pub image_path: String,
    pub registry_domain: String,
    pub registry_repo_path: String,
    pub k8s_domain: String,
    pub template: String,
    pub test: bool,
    pub ext: String,
    pub bin: bool,
}

/// The raw local git configuration, one field per queried key, with
/// the empty string standing for an unset key or a failed lookup.
#[derive(Debug, Clone)]
pub struct GitIdentity {
    /// `git config user.name`.
    pub author: String,
    /// `git config user.email`.
    pub email: String,
    /// `git config user.repo-domain`.
    pub repo_domain: String,
    /// `git config user.registry-domain`.
    pub registry_domain: String,
    /// `git config user.k8s-domain`.
    pub k8s_domain: String,
}

pub open spec fn slash() -> Seq<char> {
    seq!['/']
}

/// The repository domain, defaulting to `github.com` when unset.
pub open spec fn repo_domain_or_default(d: Seq<char>) -> Seq<char> {
    if d.len() == 0 {
        "github.com"@
    } else {
        d
    }
}

/// `lowercase("{domain}/{user}/{name}")`.
pub open spec fn repo_path_of(domain: Seq<char>, user: Seq<char>, name: Seq<char>) -> Seq<char> {
    lower_seq(domain + slash() + user + slash() + name)
}

/// `"https://{domain}/{user}/{name}"`, case kept.
pub open spec fn repo_url_of(domain: Seq<char>, user: Seq<char>, name: Seq<char>) -> Seq<char> {
    "https://"@ + domain + slash() + user + slash() + name
}

/// `lowercase("{user}/{name}")`.
pub open spec fn image_path_of(user: Seq<char>, name: Seq<char>) -> Seq<char> {
    lower_seq(user + slash() + name)
}

/// `lowercase("{registryDomain}/{imagePath}")`.
pub open spec fn registry_path_of(reg: Seq<char>, user: Seq<char>, name: Seq<char>) -> Seq<char> {
    lower_seq(reg + slash() + image_path_of(user, name))
}

/// The author's email, or a fixed placeholder asking for one.
pub open spec fn email_or_todo(e: Seq<char>) -> Seq<char> {
    if e.len() == 0 {
        "TODO: Write your email address"@
    } else {
        e
    }
}

/// The k8s domain, or a fixed sentinel naming the missing key.
pub open spec fn k8s_or_default(k: Seq<char>) -> Seq<char> {
    if k.len() == 0 {
        "k8s.domain.missing.from.gitconfig.local"@
    } else {
        k
    }
}

/// The actionable message for a missing mandatory `user.name`.
pub open spec fn user_name_missing_msg() -> Seq<char> {
    "Error: git config user.name didn't return a value. You'll probably want to make sure that's configured with your github username:\n\ngit config --global user.name YOUR_GH_NAME"@
}

/// Collects the project name, prefix and per-file flags, then derives
/// the full interpolation context.
pub struct ConfigBuilder {
    pub name: String,
    pub prefix: String,
    pub template: String,
    pub test: bool,
    pub ext: String,
    pub bin: bool,
}

impl ConfigBuilder {
    pub fn new(name: String, prefix: String) -> (r: Self)
        ensures
            r.name@ == name@,
            r.prefix@ == prefix@,
            r.template@ == Seq::<char>::empty(),
            r.test == false,
            r.ext@ == Seq::<char>::empty(),
            r.bin == false,
    {
        Self {
            name,
            prefix,
            template: String::new(),
            test: false,
            ext: String::new(),
            bin: false,
        }
    }

    pub fn template(self, template: String) -> (r: Self)
        ensures
            r.template@ == template@,
            r.name@ == self.name@,
            r.prefix@ == self.prefix@,
            r.test == self.test,
            r.ext@ == self.ext@,
            r.bin == self.bin,
    {
        Self { template, ..self }
    }

    pub fn test(self, test: bool) -> (r: Self)
        ensures
            r.test == test,
            r.name@ == self.name@,
            r.prefix@ == self.prefix@,
            r.template@ == self.template@,
            r.ext@ == self.ext@,
            r.bin == self.bin,
    {
        Self { test, ..self }
    }

    pub fn ext(self, ext: String) -> (r: Self)
        ensures
            r.ext@ == ext@,
            r.name@ == self.name@,
            r.prefix@ == self.prefix@,
            r.template@ == self.template@,
            r.test == self.test,
            r.bin == self.bin,
    {
        Self { ext, ..self }
    }

    pub fn bin(self, bin: bool) -> (r: Self)
        ensures
            r.bin == bin,
            r.name@ == self.name@,
            r.prefix@ == self.prefix@,
            r.template@ == self.template@,
            r.test == self.test,
            r.ext@ == self.ext@,
    {
        Self { bin, ..self }
    }

    /// Derives every interpolation field from the collected name,
    /// prefix and flags and the given git identity.  Fails exactly
    /// when `user.name` resolved to nothing, with an actionable
    /// message; every other missing git value degrades to a default.
    pub fn build(self, git: GitIdentity) -> (r: Result<InterpolationConfig, String>)
        ensures
            r is Err <==> git.author@.len() == 0,
            r matches Err(e) ==> e@ == user_name_missing_msg(),
            r matches Ok(c) ==> {
                &&& c.name@ == self.name@
                &&& c.title@ == title_of(self.name@)
                &&& c.unprefixed_name@ == unprefixed_of(self.name@, self.prefix@)
                &&& c.unprefixed_pascal@ == unprefixed_pascal_of(self.name@, self.prefix@)
                &&& c.underscored_name@ == underscored_of(self.name@)
                &&& c.pascal_name@ == pascal_of(self.name@)
                &&& c.camel_name@ == camel_of(self.name@)
                &&& c.screamcase_name@ == scream_of(self.name@)
                &&& c.namespaced_path@ == namespaced_of(self.name@)
                &&& c.makefile_path@ == makefile_of(self.name@)
                &&& c.constant_name@ == constant_of(self.name@)
                &&& str_views(c.constant_array@) == constant_parts_of(self.name@)
                &&& c.author@ == git.author@
                &&& c.email@ == email_or_todo(git.email@)
                &&& c.git_repo_domain@ == repo_domain_or_default(git.repo_domain@)
                &&& c.git_repo_url@ == repo_url_of(
                    repo_domain_or_default(git.repo_domain@),
                    git.author@,
                    self.name@,
                )
                &&& c.git_repo_path@ == repo_path_of(
                    repo_domain_or_default(git.repo_domain@),
                    git.author@,
                    self.name@,
                )
                &&& c.image_path@ == image_path_of(git.author@, self.name@)
                &&& c.registry_domain@ == git.registry_domain@
                &&& c.registry_repo_path@ == registry_path_of(
                    git.registry_domain@,
                    git.author@,
                    self.name@,
                )
                &&& c.k8s_domain@ == k8s_or_default(git.k8s_domain@)
                &&& c.template@ == self.template@
                &&& c.test == self.test
                &&& c.ext@ == self.ext@
                &&& c.bin == self.bin
            },
    {
        if git.author.as_str().unicode_len() == 0 {
            return Err(String::from_str(
                "Error: git config user.name didn't return a value. You'll probably want to make sure that's configured with your github username:\n\ngit config --global user.name YOUR_GH_NAME",
            ));
        }

        let name = self.name.as_str();
        let title = title_case(name);
        let pascal_name = pascal_case(name);
        let unprefixed = unprefixed_name(name, self.prefix.as_str());
        let unpref_pascal = unprefixed_pascal(name, self.prefix.as_str());
        let underscored = underscored_name(name);
        let constant = constant_name(name);
        let constant_parts = constant_array(name);
        let camel = camel_case(name);
        let scream = scream_case(name);
        let namespaced = namespaced_path(name);
        let makefile = makefile_path(name);

        let domain = if git.repo_domain.as_str().unicode_len() == 0 {
            String::from_str("github.com")
        } else {
            git.repo_domain.clone()
        };

        let mut repo_path: Vec<char> = chars_of(domain.as_str());
        repo_path.push('/');
        extend_vec(&mut repo_path, &chars_of(git.author.as_str()));
        repo_path.push('/');
        extend_vec(&mut repo_path, &chars_of(name));
        proof {
            assert(repo_path@ =~= domain@ + slash() + git.author@ + slash() + self.name@);
        }
        let git_repo_path = string_of(lower_vec(&repo_path));

        let mut url: Vec<char> = chars_of("https://");
        extend_vec(&mut url, &repo_path);
        proof {
            assert(url@ =~= "https://"@ + (domain@ + slash() + git.author@ + slash()
                + self.name@));
            assert("https://"@ + (domain@ + slash() + git.author@ + slash() + self.name@) =~= (
            "https://"@ + domain@ + slash() + git.author@ + slash() + self.name@));
        }
        let git_repo_url = string_of(url);

        let mut image: Vec<char> = chars_of(git.author.as_str());
        image.push('/');
        extend_vec(&mut image, &chars_of(name));
        proof {
            assert(image@ =~= git.author@ + slash() + self.name@);
        }
        let image_lower = lower_vec(&image);
        let image_path = string_of(image_lower.clone());

        let mut registry: Vec<char> = chars_of(git.registry_domain.as_str());
        registry.push('/');
        extend_vec(&mut registry, &image_lower);
        proof {
            assert(registry@ =~= git.registry_domain@ + slash() + image_path_of(
                git.author@,
                self.name@,
            ));
        }
        let registry_repo_path = string_of(lower_vec(&registry));

        let email = if git.email.as_str().unicode_len() == 0 {
            String::from_str("TODO: Write your email address")
        } else {
            git.email.clone()
        };

        let k8s_domain = if git.k8s_domain.as_str().unicode_len() == 0 {
            String::from_str("k8s.domain.missing.from.gitconfig.local")
        } else {
            git.k8s_domain.clone()
        };

        Ok(InterpolationConfig {
            name: self.name.clone(),
            title,
            unprefixed_name: unprefixed,
            unprefixed_pascal: unpref_pascal,
            underscored_name: underscored,
            pascal_name,
            camel_name: camel,
            screamcase_name: scream,
            namespaced_path: namespaced,
            makefile_path: makefile,
            constant_name: constant,
            constant_array: constant_parts,
            author: git.author,
            email,
            git_repo_domain: domain,
            git_repo_url,
            git_repo_path,
            image_path,
            registry_domain: git.registry_domain,
            registry_repo_path,
            k8s_domain,
            template: self.template,
            test: self.test,
            ext: self.ext,
            bin: self.bin,
        })
    }
}

} // verus!
