//! The decisions of the rule-set translation tool: which input it reads,
//! what it writes, and how it shows a translation's result tree.

use vstd::prelude::*;

use crate::memory::ends_with;
use crate::strings::{chars_to_string, string_to_chars};

verus! {

pub open spec fn csv_suffix() -> Seq<char> {
    seq!['.', 'c', 's', 'v']
}

/// Whether the input names a CSV file of texts rather than being a text.
pub fn is_csv_input(input: &str) -> (b: bool)
    ensures
        b == ends_with(input@, csv_suffix()),
{
    let s = input.to_owned();
    let suffix = ".csv".to_owned();
    proof {
        reveal_strlit(".csv");
        assert(".csv"@ =~= csv_suffix());
    }
    crate::memory::str_ends_with(&s, &suffix)
}

/// The test entries the tool writes: each text with its translation, an
/// empty one where the text could not be translated.
pub fn test_entries(texts: &Vec<String>, translations: &Vec<Option<String>>) -> (entries: Vec<(String, String)>)
    requires
        texts@.len() == translations@.len(),
    ensures
        entries@.len() == texts@.len(),
        forall|i: int|
            0 <= i < entries@.len() ==> (#[trigger] entries@[i]).0@ == texts@[i]@ && entries@[i].1@ == match translations@[i] {
                Some(t) => t@,
                None => Seq::<char>::empty(),
            },
{
    let mut entries: Vec<(String, String)> = Vec::new();
    let mut i: usize = 0;
    while i < texts.len()
        invariant
            i <= texts@.len(),
            texts@.len() == translations@.len(),
            entries@.len() == i,
            forall|j: int|
                0 <= j < i ==> (#[trigger] entries@[j]).0@ == texts@[j]@ && entries@[j].1@ == match translations@[j] {
                    Some(t) => t@,
                    None => Seq::<char>::empty(),
                },
        decreases texts@.len() - i,
    {
        let translation = match &translations[i] {
            Some(t) => t.clone(),
            None => String::new(),
        };
        entries.push((texts[i].clone(), translation));
        i += 1;
    }
    entries
}

/// Whether a test passes: the translation, empty where there is none, is the
/// expected text.
pub fn test_passes(translated: &Option<String>, expected: &String) -> (b: bool)
    ensures
        b == (match translated {
            Some(t) => t@,
            None => Seq::<char>::empty(),
        } == expected@),
{
    let t = match translated {
        Some(t) => t.clone(),
        None => String::new(),
    };
    t == *expected
}

/// `s` without `suffix` at its end, once, where it ends with it.
pub open spec fn spec_trim_suffix(s: Seq<char>, suffix: Seq<char>) -> Seq<char> {
    if ends_with(s, suffix) {
        s.take(s.len() - suffix.len())
    } else {
        s
    }
}

fn trim_suffix(s: &Vec<char>, suffix: &str) -> (r: Vec<char>)
    ensures
        r@ == spec_trim_suffix(s@, suffix@),
{
    let sfx = string_to_chars(suffix);
    let whole = chars_to_string(s);
    let sfx_s = chars_to_string(&sfx);
    if crate::memory::str_ends_with(&whole, &sfx_s) {
        let keep = s.len() - sfx.len();
        let mut out: Vec<char> = Vec::new();
        let mut i: usize = 0;
        while i < keep
            invariant
                keep <= s@.len(),
                i <= keep,
                out@ == s@.take(i as int),
            decreases keep - i,
        {
            proof {
                assert(s@.take(i as int + 1) =~= s@.take(i as int).push(s@[i as int]));
            }
            out.push(s[i]);
            i += 1;
        }
        out
    } else {
        s.clone()
    }
}

/// What a node of a result tree shows around its match: the part of the
/// input matched before it, and the part left after it; each `None` where
/// it is empty.
pub open spec fn spec_dump_context(input: Seq<char>, matched: Seq<char>, remaining: Seq<char>) -> (Option<Seq<char>>, Option<Seq<char>>) {
    let before = spec_trim_suffix(spec_trim_suffix(input, remaining), matched);
    (
        if before.len() == 0 {
            None
        } else {
            Some(before)
        },
        if remaining.len() == 0 {
            None
        } else {
            Some(remaining)
        },
    )
}

/// The part of the input matched before a node, and the part left after it.
pub fn dump_context(input: &str, matched: &str, remaining: &str) -> (r: (Option<String>, Option<String>))
    ensures
        (match r.0 {
            Some(s) => Some(s@),
            None => None,
        }, match r.1 {
            Some(s) => Some(s@),
            None => None,
        }) == spec_dump_context(input@, matched@, remaining@),
{
    let chars = string_to_chars(input);
    let a = trim_suffix(&chars, remaining);
    let before = trim_suffix(&a, matched);
    let rest = string_to_chars(remaining);
    (
        if before.len() == 0 {
            None
        } else {
            Some(chars_to_string(&before))
        },
        if rest.len() == 0 {
            None
        } else {
            Some(remaining.to_owned())
        },
    )
}

/// Whether a child node is shown: in verbose mode always, else only where it
/// matched something.
pub fn show_child(matched: &str, verbose: bool) -> (b: bool)
    ensures
        b == (verbose || matched@.len() > 0),
{
    let chars = string_to_chars(matched);
    verbose || chars.len() > 0
}

/// The indentation of a node at `level`: two spaces a level.
pub fn indent(level: usize) -> (s: String)
    requires
        2 * level <= usize::MAX,
    ensures
        s@ == Seq::new((2 * level) as nat, |i: int| ' '),
{
    let mut chars: Vec<char> = Vec::new();
    let mut i: usize = 0;
    while i < 2 * level
        invariant
            2 * level <= usize::MAX,
            i <= 2 * level,
            chars@ == Seq::new(i as nat, |j: int| ' '),
        decreases 2 * level - i,
    {
        chars.push(' ');
        i += 1;
        proof {
            assert(chars@ =~= Seq::new(i as nat, |j: int| ' '));
        }
    }
    chars_to_string(&chars)
}

} // verus!
