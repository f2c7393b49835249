//! What a run is doing.
use vstd::prelude::*;
use vstd::string::*;

use crate::text::same;

verus! {

/// What a run is doing. Status only reports; check also fetches, to report who has updates;
/// install clones what is missing and applies; update also pulls the git sources first. Session
/// start behaves like install: the manifest is realized on every start.
#[derive(Clone, Copy, Debug, PartialEq, Eq, Structural)]
pub enum Verb {
    Status,
    Check,
    Install,
    Update,
}

impl Verb {
    /// The name of the pipe that asks for this verb.
    pub open spec fn spec_name(self) -> Seq<char> {
        match self {
            Verb::Status => "status"@,
            Verb::Check => "check"@,
            Verb::Install => "install"@,
            Verb::Update => "update"@,
        }
    }

    /// The verb that a pipe of this name asks for, if it is one of ours.
    pub open spec fn spec_from_name(name: Seq<char>) -> Option<Verb> {
        if name == "status"@ {
            Some(Verb::Status)
        } else if name == "check"@ {
            Some(Verb::Check)
        } else if name == "install"@ {
            Some(Verb::Install)
        } else if name == "update"@ {
            Some(Verb::Update)
        } else {
            None
        }
    }

    /// The name of the pipe that asks for this verb.
    pub fn name(self) -> (r: &'static str)
        ensures
            r@ == self.spec_name(),
    {
        match self {
            Verb::Status => "status",
            Verb::Check => "check",
            Verb::Install => "install",
            Verb::Update => "update",
        }
    }

    /// The verb that a pipe of this name asks for, if it is one of ours.
    pub fn from_name(name: &str) -> (r: Option<Verb>)
        ensures
            r == Verb::spec_from_name(name@),
    {
        if same(name, "status") {
            Some(Verb::Status)
        } else if same(name, "check") {
            Some(Verb::Check)
        } else if same(name, "install") {
            Some(Verb::Install)
        } else if same(name, "update") {
            Some(Verb::Update)
        } else {
            None
        }
    }

    /// The four names stand for four verbs: each verb's name asks for that verb.
    pub proof fn law_names_are_distinct(self)
        ensures
            Verb::spec_from_name(self.spec_name()) == Some(self),
    {
        reveal_strlit("status");
        reveal_strlit("check");
        reveal_strlit("install");
        reveal_strlit("update");
        assert("status"@[0] == 's' && "check"@[0] == 'c');
        assert("install"@[0] == 'i' && "update"@[0] == 'u');
    }

    /// A pipe asks for a verb by one of four names; any other name is not ours.
    pub proof fn law_a_name_asks_for_its_verb(name: Seq<char>)
        ensures
            Verb::spec_from_name(name) == Some(Verb::Status) <==> name == "status"@,
            Verb::spec_from_name(name) == Some(Verb::Check) <==> name == "check"@,
            Verb::spec_from_name(name) == Some(Verb::Install) <==> name == "install"@,
            Verb::spec_from_name(name) == Some(Verb::Update) <==> name == "update"@,
    {
        Verb::Status.law_names_are_distinct();
        Verb::Check.law_names_are_distinct();
        Verb::Install.law_names_are_distinct();
        Verb::Update.law_names_are_distinct();
    }
}

} // verus!
