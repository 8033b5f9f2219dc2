//! The named parameters that a job is submitted with.
use crate::text::same;
use vstd::prelude::*;
use vstd::string::*;

verus! {

/// One parameter's value, as far as jobs read it.
#[derive(Clone, Debug)]
pub enum ParamValue {
    Bool(bool),
    /// A number, if it is a whole one from 0 up.
    Number(Option<u64>),
    Text(String),
    /// Nothing, a list or an object.
    Other,
}

#[derive(Debug)]
pub struct Params {
    pub entries: Vec<(String, ParamValue)>,
}

/// The value of the first entry with the given name.
pub open spec fn find_param(entries: Seq<(String, ParamValue)>, key: Seq<char>) -> Option<
    ParamValue,
>
    decreases entries.len(),
{
    if entries.len() == 0 {
        None
    } else if entries[0].0@ == key {
        Some(entries[0].1)
    } else {
        find_param(entries.skip(1), key)
    }
}

/// The text under `key`, if there is one.
pub open spec fn param_text(p: Params, key: Seq<char>) -> Option<Seq<char>> {
    match find_param(p.entries@, key) {
        Some(ParamValue::Text(s)) => Some(s@),
        _ => None,
    }
}

/// The number under `key`, if there is one.
pub open spec fn param_number(p: Params, key: Seq<char>) -> Option<u64> {
    match find_param(p.entries@, key) {
        Some(ParamValue::Number(n)) => n,
        _ => None,
    }
}

/// Whether `key` is set to true.
pub open spec fn param_flag(p: Params, key: Seq<char>) -> bool {
    match find_param(p.entries@, key) {
        Some(ParamValue::Bool(b)) => b,
        _ => false,
    }
}

impl Params {
    pub fn none() -> (p: Params)
        ensures
            p.entries@.len() == 0,
    {
        Params { entries: Vec::new() }
    }

    /// The parameters that set one name to true and hold nothing else.
    pub fn one_flag(key: &str) -> (p: Params)
        ensures
            p.entries@.len() == 1,
            p.entries@[0].0@ == key@,
            p.entries@[0].1 == ParamValue::Bool(true),
    {
        let mut entries: Vec<(String, ParamValue)> = Vec::new();
        entries.push((key.to_owned(), ParamValue::Bool(true)));
        Params { entries }
    }

    fn find(&self, key: &str) -> (r: Option<usize>)
        ensures
            match r {
                Some(i) => i < self.entries.len() && find_param(self.entries@, key@) == Some(
                    self.entries@[i as int].1,
                ),
                None => find_param(self.entries@, key@) is None,
            },
    {
        let ghost all = self.entries@;
        let mut i: usize = 0;
        assert(all.skip(0) =~= all);
        while i < self.entries.len()
            invariant
                i <= self.entries.len(),
                all == self.entries@,
                find_param(all, key@) == find_param(all.skip(i as int), key@),
            decreases self.entries.len() - i,
        {
            assert(all.skip(i as int)[0] == all[i as int]);
            assert(all.skip(i as int).skip(1) =~= all.skip(i + 1));
            if same(self.entries[i].0.as_str(), key) {
                return Some(i);
            }
            i += 1;
        }
        None
    }

    /// The text under `key`, if there is one.
    pub fn text(&self, key: &str) -> (r: Option<String>)
        ensures
            match r {
                Some(s) => param_text(*self, key@) == Some(s@),
                None => param_text(*self, key@) is None,
            },
    {
        match self.find(key) {
            Some(i) => match &self.entries[i].1 {
                ParamValue::Text(s) => Some(s.clone()),
                _ => None,
            },
            None => None,
        }
    }

    /// The number under `key`, if there is one.
    pub fn number(&self, key: &str) -> (r: Option<u64>)
        ensures
            r == param_number(*self, key@),
    {
        match self.find(key) {
            Some(i) => match &self.entries[i].1 {
                ParamValue::Number(n) => *n,
                _ => None,
            },
            None => None,
        }
    }

    /// Whether `key` is set to true.
    pub fn flag(&self, key: &str) -> (b: bool)
        ensures
            b == param_flag(*self, key@),
    {
        match self.find(key) {
            Some(i) => match &self.entries[i].1 {
                ParamValue::Bool(b) => *b,
                _ => false,
            },
            None => false,
        }
    }
}

// ── Laws of parameters ───────────────────────────────────────────────────────

/// Of parameters with one name the first counts.
pub proof fn law_first_parameter_counts(entries: Seq<(String, ParamValue)>, key: Seq<char>, k: int)
    requires
        0 <= k < entries.len(),
        entries[k].0@ == key,
        forall|i: int| 0 <= i < k ==> (#[trigger] entries[i]).0@ != key,
    ensures
        find_param(entries, key) == Some(entries[k].1),
    decreases entries.len(),
{
    if k > 0 {
        assert(entries[0].0@ != key);
        let rest = entries.skip(1);
        assert forall|i: int| 0 <= i < k - 1 implies (#[trigger] rest[i]).0@ != key by {
            assert(rest[i] == entries[i + 1]);
        }
        law_first_parameter_counts(rest, key, k - 1);
    }
}

/// A parameter that is missing says nothing, and is not set.
pub proof fn law_missing_parameters(p: Params, key: Seq<char>)
    requires
        forall|i: int| 0 <= i < p.entries@.len() ==> (#[trigger] p.entries@[i]).0@ != key,
    ensures
        param_text(p, key) is None,
        param_number(p, key) is None,
        !param_flag(p, key),
{
    lemma_not_found(p.entries@, key);
}

proof fn lemma_not_found(entries: Seq<(String, ParamValue)>, key: Seq<char>)
    requires
        forall|i: int| 0 <= i < entries.len() ==> (#[trigger] entries[i]).0@ != key,
    ensures
        find_param(entries, key) is None,
    decreases entries.len(),
{
    if entries.len() > 0 {
        assert(entries[0].0@ != key);
        let rest = entries.skip(1);
        assert forall|i: int| 0 <= i < rest.len() implies (#[trigger] rest[i]).0@ != key by {
            assert(rest[i] == entries[i + 1]);
        }
        lemma_not_found(rest, key);
    }
}

/// A parameter is read as what it is: a text as a text, a number as a number, a flag as a
/// flag, and nothing as anything else.
pub proof fn law_parameters_are_read_as_they_are(p: Params, key: Seq<char>)
    ensures
        match find_param(p.entries@, key) {
            Some(ParamValue::Bool(b)) => param_flag(p, key) == b && param_text(p, key) is None
                && param_number(p, key) is None,
            Some(ParamValue::Number(n)) => param_number(p, key) == n && param_text(p, key) is None
                && !param_flag(p, key),
            Some(ParamValue::Text(s)) => param_text(p, key) == Some(s@) && param_number(
                p,
                key,
            ) is None && !param_flag(p, key),
            _ => param_text(p, key) is None && param_number(p, key) is None && !param_flag(p, key),
        },
{
}

} // verus!
