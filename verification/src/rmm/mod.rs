//! Single-machine remote-management tooling: inventory, threshold monitoring
//! and alerting, a script library, and the agent protocol server that drives
//! them. Everything is off by default: see `is_enabled`.
use vstd::prelude::*;
use crate::text::str_eq;

pub mod inventory;
pub mod mcp;
pub mod monitor;
pub mod scripts;

verus! {

/// The models of option pairs (name, value).
pub open spec fn options_view(options: Seq<(String, String)>) -> Seq<(Seq<char>, Seq<char>)> {
    options.map_values(|p: (String, String)| (p.0@, p.1@))
}

/// The value of the first option named `key`, if any.
pub open spec fn option_value(options: Seq<(Seq<char>, Seq<char>)>, key: Seq<char>) -> Option<
    Seq<char>,
>
    decreases options.len(),
{
    if options.len() == 0 {
        None
    } else if options[0].0 == key {
        Some(options[0].1)
    } else {
        option_value(options.drop_first(), key)
    }
}

proof fn lemma_option_found(options: Seq<(Seq<char>, Seq<char>)>, key: Seq<char>, i: int)
    requires
        0 <= i < options.len(),
        options[i].0 == key,
        forall|k: int| 0 <= k < i ==> options[k].0 != key,
    ensures
        option_value(options, key) == Some(options[i].1),
    decreases i,
{
    if i > 0 {
        lemma_option_found(options.drop_first(), key, i - 1);
    }
}

proof fn lemma_option_absent(options: Seq<(Seq<char>, Seq<char>)>, key: Seq<char>)
    requires
        forall|k: int| 0 <= k < options.len() ==> options[k].0 != key,
    ensures
        option_value(options, key) is None,
    decreases options.len(),
{
    if options.len() > 0 {
        lemma_option_absent(options.drop_first(), key);
    }
}

/// The value of the option named `key` in the option store, if it is set.
pub fn find_option<'a>(options: &'a Vec<(String, String)>, key: &str) -> (r: Option<&'a String>)
    ensures
        match r {
            Some(v) => option_value(options_view(options@), key@) == Some(v@),
            None => option_value(options_view(options@), key@) is None,
        },
{
    let ghost opts = options_view(options@);
    let mut i: usize = 0;
    while i < options.len()
        invariant
            i <= options@.len(),
            opts == options_view(options@),
            forall|k: int| 0 <= k < i ==> opts[k].0 != key@,
        decreases options@.len() - i,
    {
        if str_eq(options[i].0.as_str(), key) {
            proof {
                lemma_option_found(opts, key@, i as int);
            }
            return Some(&options[i].1);
        }
        i = i + 1;
    }
    proof {
        lemma_option_absent(opts, key@);
    }
    None
}

/// Whether a feature switch is on, given the value of its option: only the
/// exact value `Y` turns it on, and an unset option reads as empty.
pub fn is_enabled(option_value: &str) -> (r: bool)
    ensures
        r == (option_value@ == "Y"@),
{
    str_eq(option_value, "Y")
}

} // verus!
