//! This tool's own settings in Git's configuration: `gitsu.defaultSelectScope` and
//! `gitsu.groupEmailAddress`.

use vstd::prelude::*;
use crate::git::{Git, Scope, get_command};
use crate::text::{owned, str_eq, trim, trim_str};

verus! {

broadcast use vstd::string::group_string_axioms;

/// The scope that a switch without a scope goes to, from the configured value: `global`
/// and `system` name their scopes, anything else stands for the local scope.
pub open spec fn select_scope_of(configured: Seq<char>) -> Scope {
    let v = trim(configured);
    if v == "global"@ {
        Scope::Global
    } else if v == "system"@ {
        Scope::System
    } else {
        Scope::Local
    }
}

/// The group address for pairs, from the configured value: `dev@example.com` when
/// nothing is configured.
pub open spec fn group_email_of(configured: Seq<char>) -> Seq<char> {
    let v = trim(configured);
    if v.len() == 0 {
        "dev@example.com"@
    } else {
        v
    }
}

/// This tool's settings in Git's configuration.
pub struct ConfigRepository;

impl ConfigRepository {
    /// The command that reads `gitsu.defaultSelectScope`.
    pub fn default_select_scope_command() -> (r: String)
        ensures
            r@ == get_command(Scope::Derived, "gitsu.defaultSelectScope"@),
    {
        Git::get_config(Scope::Derived, "gitsu.defaultSelectScope")
    }

    /// The command that reads `gitsu.groupEmailAddress`.
    pub fn group_email_address_command() -> (r: String)
        ensures
            r@ == get_command(Scope::Derived, "gitsu.groupEmailAddress"@),
    {
        Git::get_config(Scope::Derived, "gitsu.groupEmailAddress")
    }

    /// The default scope, from what reading `gitsu.defaultSelectScope` printed.
    pub fn default_select_scope(configured: &str) -> (r: Scope)
        ensures
            r == select_scope_of(configured@),
            r == Scope::Local || r == Scope::Global || r == Scope::System,
    {
        let v = trim_str(configured);
        proof {
            reveal_strlit("local");
            reveal_strlit("global");
            reveal_strlit("system");
        }
        if v.as_str().is_empty() {
            return Scope::Local;
        }
        if str_eq(v.as_str(), "local") {
            Scope::Local
        } else if str_eq(v.as_str(), "global") {
            Scope::Global
        } else if str_eq(v.as_str(), "system") {
            Scope::System
        } else {
            Scope::Local
        }
    }

    /// The group address for pairs, from what reading `gitsu.groupEmailAddress` printed.
    pub fn group_email_address(configured: &str) -> (r: String)
        ensures
            r@ == group_email_of(configured@),
    {
        let v = trim_str(configured);
        if v.as_str().is_empty() {
            owned("dev@example.com")
        } else {
            v
        }
    }
}

} // verus!
