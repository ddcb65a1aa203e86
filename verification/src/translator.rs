//! Translation: which texts to skip, the dictionaries of translations by
//! language, and the cache of answered requests.

use vstd::prelude::*;

use crate::assoc::{
    assoc_insert, find_key, group_insert, group_lookup, groups_unique, key_index, keys_unique,
    lemma_assoc_insert_unique, lemma_group_insert, lemma_key_index, lemma_key_index_at, lemma_key_index_none,
    vec_assoc_insert,
};
use crate::chars::{
    is_ascii_digit, is_ascii_punctuation, is_ascii_whitespace, spec_is_ascii_digit, spec_is_ascii_punctuation,
    spec_is_ascii_whitespace, spec_utf8_len_seq,
};
use crate::game::{mod_name, mod_name_spec, GameInfo};
use crate::strings::{chars_to_string, string_to_chars};

verus! {

// ---------------------------------------------------------------------------
// Skipping

/// Text made only of ASCII digits, punctuation and whitespace.
pub open spec fn only_symbols(s: Seq<char>) -> bool {
    forall|i: int|
        0 <= i < s.len() ==> spec_is_ascii_digit(#[trigger] s[i]) || spec_is_ascii_punctuation(s[i])
            || spec_is_ascii_whitespace(s[i])
}

pub open spec fn fps_prefix() -> Seq<char> {
    seq!['F', 'P', 'S', ':', ' ']
}

/// Text is not translated when it is shorter than two bytes, an FPS counter,
/// or only digits, punctuation and whitespace; the game's version string is
/// always translated.
pub open spec fn spec_should_skip(original: Seq<char>, version: Seq<char>) -> bool {
    original != version && (spec_utf8_len_seq(original) < 2 || original.take(5) == fps_prefix()
        && original.len() >= 5 || only_symbols(original))
}

/// Whether `original` should not be translated; `version` is the game's
/// version string.
pub fn should_skip_translation(original: &str, version: &str) -> (skip: bool)
    ensures
        skip == spec_should_skip(original@, version@),
{
    let chars = string_to_chars(original);
    let vchars = string_to_chars(version);
    if chars_equal(&chars, &vchars) {
        return false;
    }
    proof {
        crate::chars::lemma_utf8_len_seq_bounds(chars@);
        if chars@.len() == 1 {
            assert(chars@.drop_last() =~= Seq::<char>::empty());
            assert(spec_utf8_len_seq(chars@.drop_last()) == 0);
            assert(chars@.last() == chars@[0]);
            assert(spec_utf8_len_seq(chars@) == spec_utf8_len_seq(chars@.drop_last()) + crate::chars::spec_utf8_len(
                chars@.last(),
            ));
        }
    }
    if chars.len() == 0 || (chars.len() == 1 && crate::chars::utf8_len(chars[0]) == 1) {
        return true;
    }
    proof {
        if chars@.len() == 1 {
            assert(crate::chars::spec_utf8_len(chars@[0]) >= 2);
        }
    }
    if chars.len() >= 5 && chars[0] == 'F' && chars[1] == 'P' && chars[2] == 'S' && chars[3] == ':' && chars[4]
        == ' ' {
        proof {
            assert(chars@.take(5) =~= fps_prefix());
        }
        return true;
    }
    proof {
        if chars@.len() >= 5 {
            assert(chars@.take(5)[0] == chars@[0]);
            assert(chars@.take(5)[1] == chars@[1]);
            assert(chars@.take(5)[2] == chars@[2]);
            assert(chars@.take(5)[3] == chars@[3]);
            assert(chars@.take(5)[4] == chars@[4]);
        }
    }
    let ghost not_short = !(spec_utf8_len_seq(original@) < 2);
    let ghost not_fps = !(original@.take(5) == fps_prefix() && original@.len() >= 5);
    let mut i: usize = 0;
    while i < chars.len()
        invariant
            chars@ == original@,
            original@ != version@,
            !(spec_utf8_len_seq(original@) < 2),
            !(original@.take(5) == fps_prefix() && original@.len() >= 5),
            i <= chars@.len(),
            forall|j: int|
                0 <= j < i ==> spec_is_ascii_digit(#[trigger] chars@[j]) || spec_is_ascii_punctuation(chars@[j])
                    || spec_is_ascii_whitespace(chars@[j]),
        decreases chars@.len() - i,
    {
        let c = chars[i];
        if !(is_ascii_digit(c) || is_ascii_punctuation(c) || is_ascii_whitespace(c)) {
            proof {
                assert(!only_symbols(original@));
            }
            return false;
        }
        i += 1;
    }
    true
}

fn chars_equal(a: &Vec<char>, b: &Vec<char>) -> (eq: bool)
    ensures
        eq == (a@ == b@),
{
    if a.len() != b.len() {
        return false;
    }
    let mut i: usize = 0;
    while i < a.len()
        invariant
            a@.len() == b@.len(),
            i <= a@.len(),
            forall|j: int| 0 <= j < i ==> a@[j] == b@[j],
        decreases a@.len() - i,
    {
        if a[i] != b[i] {
            return false;
        }
        i += 1;
    }
    proof {
        assert(a@ =~= b@);
    }
    true
}

// ---------------------------------------------------------------------------
// Responses

/// How a translated text is aligned in the space of the original.
#[derive(Clone, Copy, Debug, PartialEq, Eq, Structural)]
pub enum TextAlignment {
    Left,
    Right,
    Center,
}

/// A translation: its text and alignment.
pub struct TranslationResponse {
    pub translated: String,
    pub alignment: TextAlignment,
}

pub type ResponseView = (Seq<char>, TextAlignment);

impl View for TranslationResponse {
    type V = ResponseView;

    open spec fn view(&self) -> ResponseView {
        (self.translated@, self.alignment)
    }
}

impl TranslationResponse {
    pub fn duplicate(&self) -> (r: TranslationResponse)
        ensures
            r@ == self@,
    {
        TranslationResponse { translated: self.translated.clone(), alignment: self.alignment }
    }
}

pub open spec fn option_response_view(r: Option<TranslationResponse>) -> Option<ResponseView> {
    match r {
        Some(v) => Some(v@),
        None => None,
    }
}

fn duplicate_option(r: &Option<TranslationResponse>) -> (d: Option<TranslationResponse>)
    ensures
        option_response_view(d) == option_response_view(*r),
{
    match r {
        Some(v) => Some(v.duplicate()),
        None => None,
    }
}

// ---------------------------------------------------------------------------
// Tags

pub open spec fn opt_str_view(o: Option<String>) -> Option<Seq<char>> {
    match o {
        Some(s) => Some(s@),
        None => None,
    }
}

pub open spec fn captures_view(v: Seq<(Option<String>, Option<String>)>) -> Seq<(Option<Seq<char>>, Option<Seq<char>>)> {
    v.map_values(|c: (Option<String>, Option<String>)| (opt_str_view(c.0), opt_str_view(c.1)))
}

/// The first index at or after `from` where `s` holds `a` or `b`; the length
/// of `s` where none does.
pub open spec fn next_of(s: Seq<char>, from: int, a: char, b: char) -> int
    decreases s.len() - from,
{
    if from < 0 || from >= s.len() {
        s.len() as int
    } else if s[from] == a || s[from] == b {
        from
    } else {
        next_of(s, from + 1, a, b)
    }
}

/// A tag `[KEY:VALUE]` starting at `p`, with a key holding neither '[' nor
/// ':' and a value holding neither ':' nor ']', both not empty: the indices
/// of its ':' and of its ']'.
pub open spec fn tag_at(s: Seq<char>, p: int) -> Option<(int, int)> {
    if 0 <= p < s.len() && s[p] == '[' {
        let q = next_of(s, p + 1, '[', ':');
        let r = next_of(s, q + 1, ':', ']');
        if p + 1 < q < s.len() && s[q] == ':' && q + 1 < r < s.len() && s[r] == ']' {
            Some((q, r))
        } else {
            None
        }
    } else {
        None
    }
}

/// The tags found scanning `s` from `p`, left to right and without
/// overlapping, as the key and value of each.
pub open spec fn tag_matches_from(s: Seq<char>, p: int) -> Seq<(Option<Seq<char>>, Option<Seq<char>>)>
    decreases s.len() - p,
{
    if p < 0 || p >= s.len() {
        Seq::empty()
    } else {
        match tag_at(s, p) {
            Some((q, r)) => seq![(Some(s.subrange(p + 1, q)), Some(s.subrange(q + 1, r)))] + tag_matches_from(
                s,
                r + 1,
            ),
            None => tag_matches_from(s, p + 1),
        }
    }
}

/// `regex::Regex::new(pattern)` with the tag pattern, and
/// `captures_iter(haystack)`: the first and second groups of each match. The
/// pattern compiles, and its matches, leftmost first and not overlapping,
/// are the tags `tag_matches_from` finds.
#[verifier::external_body]
fn captures(pattern: &str, haystack: &str) -> (r: Option<Vec<(Option<String>, Option<String>)>>)
    requires
        pattern@ == df_tag_pattern_spec(),
    ensures
        match r {
            Some(v) => captures_view(v@) == tag_matches_from(haystack@, 0),
            None => false,
        },
{
    match regex::Regex::new(pattern) {
        Ok(re) => Some(
            re.captures_iter(haystack).map(
                |c| (c.get(1).map(|m| m.as_str().to_owned()), c.get(2).map(|m| m.as_str().to_owned())),
            ).collect(),
        ),
        Err(_) => None,
    }
}

/// The pattern of a tag `[KEY:VALUE]` in the game's text format.
pub fn df_tag_pattern() -> (p: &'static str)
    ensures
        p@ == df_tag_pattern_spec(),
{
    proof {
        reveal_strlit("\\[([^\\[:]+):([^:\\]]+)\\]");
    }
    "\\[([^\\[:]+):([^:\\]]+)\\]"
}

pub open spec fn df_tag_pattern_spec() -> Seq<char> {
    seq![
        '\\', '[', '(', '[', '^', '\\', '[', ':', ']', '+', ')', ':', '(', '[', '^', ':', '\\', ']', ']', '+', ')',
        '\\', ']',
    ]
}

/// The tags of captures `0..n`: each key with its value, a later value of a
/// key replacing an earlier one.
pub open spec fn tags_of(caps: Seq<(Option<Seq<char>>, Option<Seq<char>>)>, n: nat) -> Seq<(Seq<char>, Seq<char>)>
    decreases n,
{
    if n == 0 {
        Seq::empty()
    } else {
        let t = tags_of(caps, (n - 1) as nat);
        match caps[n - 1] {
            (Some(k), Some(v)) => assoc_insert(t, k, v),
            _ => t,
        }
    }
}

/// The tags of a tags string.
pub open spec fn spec_parse_tags(tags: Seq<char>) -> Seq<(Seq<char>, Seq<char>)> {
    tags_of(tag_matches_from(tags, 0), tag_matches_from(tags, 0).len())
}

pub open spec fn tags_view(v: Seq<(String, String)>) -> Seq<(Seq<char>, Seq<char>)> {
    v.map_values(|e: (String, String)| (e.0@, e.1@))
}

/// Parse tags in the game's text format, `[KEY:VALUE]`, into their keys and
/// values.
pub fn parse_tags(tags_str: &str) -> (tags: Vec<(String, String)>)
    ensures
        tags_view(tags@) == spec_parse_tags(tags_str@),
        keys_unique(tags_view(tags@)),
{
    let mut tags: Vec<(String, String)> = Vec::new();
    proof {
        assert(tags_view(tags@) =~= Seq::<(Seq<char>, Seq<char>)>::empty());
    }
    match captures(df_tag_pattern(), tags_str) {
        None => {
            proof {
                assert(false);
            }
            tags
        },
        Some(caps) => {
            let ghost cv = captures_view(caps@);
            let mut i: usize = 0;
            while i < caps.len()
                invariant
                    i <= caps@.len(),
                    cv == captures_view(caps@),
                    tags_view(tags@) == tags_of(cv, i as nat),
                    keys_unique(tags_view(tags@)),
                decreases caps@.len() - i,
            {
                proof {
                    assert(cv[i as int] == (opt_str_view(caps@[i as int].0), opt_str_view(caps@[i as int].1)));
                }
                match (&caps[i].0, &caps[i].1) {
                    (Some(k), Some(v)) => {
                        let ghost tv = tags_view(tags@);
                        let r = vec_assoc_insert(&mut tags, k.clone(), v.clone());
                        proof {
                            match r {
                                Some(j) => {
                                    lemma_key_index_at(tv, k@, j as int);
                                },
                                None => {
                                    lemma_key_index_none(tv, k@);
                                },
                            }
                            assert(tags_view(tags@) =~= assoc_insert(tv, k@, v@));
                            lemma_assoc_insert_unique(tv, k@, v@);
                        }
                    },
                    _ => {},
                }
                i += 1;
            }
            tags
        },
    }
}

/// The alignment a translation's tags give: its "ALIGNMENT" tag, left by
/// default.
pub open spec fn spec_alignment(tags: Seq<(Seq<char>, Seq<char>)>) -> TextAlignment {
    match key_index(tags, seq!['A', 'L', 'I', 'G', 'N', 'M', 'E', 'N', 'T']) {
        Some(i) => if tags[i].1 == seq!['R', 'I', 'G', 'H', 'T'] {
            TextAlignment::Right
        } else if tags[i].1 == seq!['C', 'E', 'N', 'T', 'E', 'R'] {
            TextAlignment::Center
        } else {
            TextAlignment::Left
        },
        None => TextAlignment::Left,
    }
}

fn str_is(s: &String, lit: &str) -> (b: bool)
    ensures
        b == (s@ == lit@),
{
    *s == lit.to_owned()
}

fn alignment(tags: &Vec<(String, String)>) -> (a: TextAlignment)
    ensures
        a == spec_alignment(tags_view(tags@)),
{
    proof {
        reveal_strlit("ALIGNMENT");
        reveal_strlit("RIGHT");
        reveal_strlit("CENTER");
        assert("ALIGNMENT"@ =~= seq!['A', 'L', 'I', 'G', 'N', 'M', 'E', 'N', 'T']);
        assert("RIGHT"@ =~= seq!['R', 'I', 'G', 'H', 'T']);
        assert("CENTER"@ =~= seq!['C', 'E', 'N', 'T', 'E', 'R']);
        lemma_key_index(tags_view(tags@), seq!['A', 'L', 'I', 'G', 'N', 'M', 'E', 'N', 'T']);
    }
    let key = "ALIGNMENT".to_owned();
    match find_key(tags, &key) {
        Some(i) => {
            proof {
                lemma_key_index_at(tags_view(tags@), key@, i as int);
                assert(tags_view(tags@)[i as int] == (tags@[i as int].0@, tags@[i as int].1@));
            }
            if str_is(&tags[i].1, "RIGHT") {
                TextAlignment::Right
            } else if str_is(&tags[i].1, "CENTER") {
                TextAlignment::Center
            } else {
                TextAlignment::Left
            }
        },
        None => {
            proof {
                lemma_key_index_none(tags_view(tags@), key@);
            }
            TextAlignment::Left
        },
    }
}

// ---------------------------------------------------------------------------
// Dictionaries

/// An entry of a dictionary: the translation and its tags.
pub type DictEntry = (String, Vec<(String, String)>);

pub type DictEntryView = (Seq<char>, Seq<(Seq<char>, Seq<char>)>);

pub type DictsView = Seq<(Seq<char>, Seq<(Seq<char>, DictEntryView)>)>;

/// The dictionaries of translations by language tag, each mapping an original
/// text to its translation and tags.
pub struct SimpleDictionaries {
    dicts: Vec<(String, Vec<(String, DictEntry)>)>,
}

pub open spec fn dict_view(d: Vec<(String, DictEntry)>) -> Seq<(Seq<char>, DictEntryView)> {
    d@.map_values(|e: (String, DictEntry)| (e.0@, (e.1.0@, tags_view(e.1.1@))))
}

impl View for SimpleDictionaries {
    type V = DictsView;

    closed spec fn view(&self) -> DictsView {
        dicts_view(self.dicts@)
    }
}

spec fn dicts_view(v: Seq<(String, Vec<(String, DictEntry)>)>) -> DictsView {
    v.map_values(|g: (String, Vec<(String, DictEntry)>)| (g.0@, dict_view(g.1)))
}

/// A dictionary made for a language it lacked keeps languages and texts
/// unique.
proof fn lemma_ensure_dict_unique(d: DictsView, lang: Seq<char>)
    requires
        groups_unique(d),
    ensures
        groups_unique(spec_ensure_dict(d, lang)),
{
    lemma_key_index(d, lang);
    let e = spec_ensure_dict(d, lang);
    if key_index(d, lang) is None {
        assert forall|a: int, b: int| 0 <= a < b < e.len() implies (#[trigger] e[a]).0 != (#[trigger] e[b]).0 by {
            assert(e[a] == d[a]);
            if b < d.len() {
                assert(e[b] == d[b]);
            }
        }
        assert forall|i: int| 0 <= i < e.len() implies keys_unique(#[trigger] e[i].1) by {
            if i < d.len() {
                assert(e[i] == d[i]);
            }
        }
    }
}

/// The dictionaries after `add_entry`.
pub open spec fn spec_add_entry(d: DictsView, lang: Seq<char>, text: Seq<char>, translation: Seq<char>, tags: Seq<char>) -> DictsView {
    group_insert(d, lang, text, (translation, spec_parse_tags(tags)))
}

/// The dictionaries after `ensure_dict`: a language without a dictionary gets
/// an empty one.
pub open spec fn spec_ensure_dict(d: DictsView, lang: Seq<char>) -> DictsView {
    match key_index(d, lang) {
        Some(_) => d,
        None => d.push((lang, Seq::empty())),
    }
}

/// The translation of `text` in the dictionary of `lang`.
pub open spec fn spec_simple_translate(d: DictsView, lang: Seq<char>, text: Seq<char>) -> Option<ResponseView> {
    match key_index(d, lang) {
        Some(i) => match key_index(d[i].1, text) {
            Some(j) => Some((d[i].1[j].1.0, spec_alignment(d[i].1[j].1.1))),
            None => None,
        },
        None => None,
    }
}

impl SimpleDictionaries {
    /// Each language and each text in its dictionary occurs once.
    #[verifier::type_invariant]
    spec fn unique(&self) -> bool {
        groups_unique(self@)
    }

    pub fn new() -> (d: SimpleDictionaries)
        ensures
            d@ == Seq::<(Seq<char>, Seq<(Seq<char>, DictEntryView)>)>::empty(),
            groups_unique(d@),
    {
        proof {
            assert(dicts_view(Seq::empty()) =~= Seq::<(Seq<char>, Seq<(Seq<char>, DictEntryView)>)>::empty());
        }
        SimpleDictionaries { dicts: Vec::new() }
    }

    /// Make the dictionary of `lang`, where there is none yet.
    pub fn ensure_dict(&mut self, lang: &str)
        ensures
            final(self)@ == spec_ensure_dict(old(self)@, lang@),
            groups_unique(final(self)@),
    {
        let ghost dv = self@;
        proof {
            use_type_invariant(&*self);
            lemma_ensure_dict_unique(dv, lang@);
        }
        let key = lang.to_owned();
        match find_key(&self.dicts, &key) {
            Some(i) => {
                proof {
                    lemma_key_index_at(dv, key@, i as int);
                }
            },
            None => {
                proof {
                    lemma_key_index_none(dv, key@);
                }
                let empty: Vec<(String, DictEntry)> = Vec::new();
                proof {
                    assert(dict_view(empty) =~= Seq::<(Seq<char>, DictEntryView)>::empty());
                }
                let mut dicts: Vec<(String, Vec<(String, DictEntry)>)> = Vec::new();
                proof {
                    assert(dicts_view(dicts@) =~= Seq::<(Seq<char>, Seq<(Seq<char>, DictEntryView)>)>::empty());
                }
                std::mem::swap(&mut dicts, &mut self.dicts);
                dicts.push((key, empty));
                proof {
                    assert(dicts_view(dicts@) =~= dv.push((lang@, Seq::empty())));
                }
                self.dicts = dicts;
            },
        }
    }

    /// Add the translation of `text` in `lang`, with its tags in the game's
    /// text format, in place of any earlier one.
    pub fn add_entry(&mut self, lang: &str, text: String, translation: String, tags: &str)
        ensures
            final(self)@ == spec_add_entry(old(self)@, lang@, text@, translation@, tags@),
            groups_unique(final(self)@),
    {
        let ghost dv = self@;
        let key = lang.to_owned();
        let parsed = parse_tags(tags);
        let ghost ev = (translation@, tags_view(parsed@));
        let ghost t = text@;
        proof {
            use_type_invariant(&*self);
            lemma_group_insert(dv, lang@, t, ev);
        }
        let found = find_key(&self.dicts, &key);
        let mut dicts: Vec<(String, Vec<(String, DictEntry)>)> = Vec::new();
        proof {
            assert(dicts_view(dicts@) =~= Seq::<(Seq<char>, Seq<(Seq<char>, DictEntryView)>)>::empty());
        }
        std::mem::swap(&mut dicts, &mut self.dicts);
        proof {
            assert(dicts_view(dicts@) == dv);
        }
        match found {
            Some(i) => {
                proof {
                    lemma_key_index_at(dv, key@, i as int);
                }
                let (name, mut dict) = dicts.remove(i);
                let ghost gv = dict_view(dict);
                let r = vec_assoc_insert(&mut dict, text, (translation, parsed));
                proof {
                    match r {
                        Some(j) => {
                            lemma_key_index_at(gv, t, j as int);
                        },
                        None => {
                            lemma_key_index_none(gv, t);
                        },
                    }
                    assert(dict_view(dict) =~= assoc_insert(gv, t, ev));
                }
                dicts.insert(i, (name, dict));
                proof {
                    assert(dicts_view(dicts@) =~= dv.update(i as int, (lang@, assoc_insert(gv, t, ev))));
                }
            },
            None => {
                proof {
                    lemma_key_index_none(dv, key@);
                }
                let mut dict: Vec<(String, DictEntry)> = Vec::new();
                dict.push((text, (translation, parsed)));
                dicts.push((key, dict));
                proof {
                    assert(dict_view(dict) =~= seq![(t, ev)]);
                    assert(dicts_view(dicts@) =~= dv.push((lang@, seq![(t, ev)])));
                }
            },
        }
        self.dicts = dicts;
    }

    /// Forget every dictionary.
    pub fn reset(&mut self)
        ensures
            final(self)@ == Seq::<(Seq<char>, Seq<(Seq<char>, DictEntryView)>)>::empty(),
            groups_unique(final(self)@),
    {
        proof {
            assert(dicts_view(Seq::empty()) =~= Seq::<(Seq<char>, Seq<(Seq<char>, DictEntryView)>)>::empty());
        }
        self.dicts = Vec::new();
    }

    /// The translation of `text` in the dictionary of `lang`, aligned as its
    /// tags say.
    pub fn translate(&self, lang: &str, text: &str) -> (r: Option<TranslationResponse>)
        ensures
            option_response_view(r) == spec_simple_translate(self@, lang@, text@),
    {
        let key = lang.to_owned();
        match find_key(&self.dicts, &key) {
            None => {
                proof {
                    lemma_key_index_none(self@, key@);
                }
                None
            },
            Some(i) => {
                proof {
                    lemma_key_index_at(self@, key@, i as int);
                }
                let dict = &self.dicts[i].1;
                let tkey = text.to_owned();
                match find_key(dict, &tkey) {
                    None => {
                        proof {
                            lemma_key_index_none(dict_view(*dict), tkey@);
                        }
                        None
                    },
                    Some(j) => {
                        proof {
                            lemma_key_index_at(dict_view(*dict), tkey@, j as int);
                        }
                        let entry = &dict[j].1;
                        Some(TranslationResponse { translated: entry.0.clone(), alignment: alignment(&entry.1) })
                    },
                }
            },
        }
    }
}

/// A translation added to a dictionary is the one the dictionary gives for
/// that text in that language.
pub proof fn lemma_add_then_translate(d: DictsView, lang: Seq<char>, text: Seq<char>, translation: Seq<char>, tags: Seq<char>)
    requires
        keys_unique(d),
        forall|i: int| 0 <= i < d.len() ==> keys_unique(#[trigger] d[i].1),
    ensures
        spec_simple_translate(spec_add_entry(d, lang, text, translation, tags), lang, text) == Some(
            (translation, spec_alignment(spec_parse_tags(tags))),
        ),
{
    let ev = (translation, spec_parse_tags(tags));
    let d2 = spec_add_entry(d, lang, text, translation, tags);
    lemma_key_index(d, lang);
    match key_index(d, lang) {
        Some(i) => {
            lemma_assoc_insert_unique(d[i].1, text, ev);
            lemma_key_index(d2, lang);
            assert(d2[i].0 == lang);
            lemma_key_index_at(d2, lang, i);
        },
        None => {
            lemma_key_index(d2, lang);
            lemma_key_index_at(d2, lang, d.len() as int);
            lemma_key_index_at(seq![(text, ev)], text, 0);
        },
    }
}


// ---------------------------------------------------------------------------
// The cache of requests

pub type CachesView = Seq<(Seq<char>, Seq<(Seq<char>, Option<ResponseView>)>)>;

/// The answers to translation requests by language tag and request key; a
/// request being translated has no answer yet (`None`).
pub struct TranslationCaches {
    caches: Vec<(String, Vec<(String, Option<TranslationResponse>)>)>,
}

pub open spec fn cache_view(c: Vec<(String, Option<TranslationResponse>)>) -> Seq<(Seq<char>, Option<ResponseView>)> {
    c@.map_values(|e: (String, Option<TranslationResponse>)| (e.0@, option_response_view(e.1)))
}

impl View for TranslationCaches {
    type V = CachesView;

    closed spec fn view(&self) -> CachesView {
        caches_view(self.caches@)
    }
}

spec fn caches_view(v: Seq<(String, Vec<(String, Option<TranslationResponse>)>)>) -> CachesView {
    v.map_values(|g: (String, Vec<(String, Option<TranslationResponse>)>)| (g.0@, cache_view(g.1)))
}

/// What a request finds: the dictionary's translation, or what the cache
/// holds for it.
pub enum CacheOutcome {
    /// The dictionary of the language translates the text: its answer, given
    /// at once.
    Dictionary(TranslationResponse),
    /// The request was seen before: its answer, `None` while it is being
    /// translated.
    Cached(Option<TranslationResponse>),
    /// The request is new: it is marked as being translated, and the
    /// translation is to be started.
    Started,
}

impl TranslationCaches {
    /// Each language and each request in it occurs once.
    #[verifier::type_invariant]
    spec fn unique(&self) -> bool {
        groups_unique(self@)
    }

    pub fn new() -> (c: TranslationCaches)
        ensures
            c@ == Seq::<(Seq<char>, Seq<(Seq<char>, Option<ResponseView>)>)>::empty(),
            groups_unique(c@),
    {
        proof {
            assert(caches_view(Seq::empty()) =~= Seq::<(Seq<char>, Seq<(Seq<char>, Option<ResponseView>)>)>::empty());
        }
        TranslationCaches { caches: Vec::new() }
    }

    /// Forget every answer.
    pub fn clear(&mut self)
        ensures
            final(self)@ == Seq::<(Seq<char>, Seq<(Seq<char>, Option<ResponseView>)>)>::empty(),
            groups_unique(final(self)@),
    {
        proof {
            assert(caches_view(Seq::empty()) =~= Seq::<(Seq<char>, Seq<(Seq<char>, Option<ResponseView>)>)>::empty());
        }
        self.caches = Vec::new();
    }

    /// Record `value` for request `key` in language `lang`.
    pub fn record(&mut self, lang: &str, key: &str, value: Option<TranslationResponse>)
        ensures
            final(self)@ == group_insert(old(self)@, lang@, key@, option_response_view(value)),
            groups_unique(final(self)@),
    {
        let ghost cv = self@;
        let ghost vv = option_response_view(value);
        proof {
            use_type_invariant(&*self);
            lemma_group_insert(cv, lang@, key@, vv);
        }
        let name = lang.to_owned();
        let k = key.to_owned();
        let found = find_key(&self.caches, &name);
        let mut caches: Vec<(String, Vec<(String, Option<TranslationResponse>)>)> = Vec::new();
        proof {
            assert(caches_view(caches@) =~= Seq::<(Seq<char>, Seq<(Seq<char>, Option<ResponseView>)>)>::empty());
        }
        std::mem::swap(&mut caches, &mut self.caches);
        proof {
            assert(caches_view(caches@) == cv);
        }
        match found {
            Some(i) => {
                proof {
                    lemma_key_index_at(cv, name@, i as int);
                }
                let (n, mut cache) = caches.remove(i);
                let ghost gv = cache_view(cache);
                let r = vec_assoc_insert(&mut cache, k, value);
                proof {
                    match r {
                        Some(j) => {
                            lemma_key_index_at(gv, key@, j as int);
                        },
                        None => {
                            lemma_key_index_none(gv, key@);
                        },
                    }
                    assert(cache_view(cache) =~= assoc_insert(gv, key@, vv));
                }
                caches.insert(i, (n, cache));
                proof {
                    assert(caches_view(caches@) =~= cv.update(i as int, (lang@, assoc_insert(gv, key@, vv))));
                }
            },
            None => {
                proof {
                    lemma_key_index_none(cv, name@);
                }
                let mut cache: Vec<(String, Option<TranslationResponse>)> = Vec::new();
                cache.push((k, value));
                caches.push((name, cache));
                proof {
                    assert(cache_view(cache) =~= seq![(key@, vv)]);
                    assert(caches_view(caches@) =~= cv.push((lang@, seq![(key@, vv)])));
                }
            },
        }
        self.caches = caches;
    }

    /// The cached answer to request `key` in language `lang`, if it was seen.
    pub fn lookup(&self, lang: &str, key: &str) -> (r: Option<Option<TranslationResponse>>)
        ensures
            match r {
                Some(v) => group_lookup(self@, lang@, key@) == Some(option_response_view(v)),
                None => group_lookup(self@, lang@, key@) is None,
            },
    {
        let name = lang.to_owned();
        match find_key(&self.caches, &name) {
            None => {
                proof {
                    lemma_key_index_none(self@, name@);
                }
                None
            },
            Some(i) => {
                proof {
                    lemma_key_index_at(self@, name@, i as int);
                }
                let cache = &self.caches[i].1;
                let k = key.to_owned();
                match find_key(cache, &k) {
                    None => {
                        proof {
                            lemma_key_index_none(cache_view(*cache), k@);
                        }
                        None
                    },
                    Some(j) => {
                        proof {
                            lemma_key_index_at(cache_view(*cache), k@, j as int);
                        }
                        Some(duplicate_option(&cache[j].1))
                    },
                }
            },
        }
    }
}

/// Answer a request: text the dictionary of language `lang` translates gets
/// that translation at once; other text is looked up in the cache, where a
/// request seen before gets its cached answer and a new one is marked as
/// being translated, for the caller to start its translation.
pub fn translate(caches: &mut TranslationCaches, dicts: &SimpleDictionaries, lang: &str, key: &str, original: &str) -> (r: CacheOutcome)
    ensures
        match spec_simple_translate(dicts@, lang@, original@) {
            Some(t) => r matches CacheOutcome::Dictionary(d) && option_response_view(Some(d)) == Some(t)
                && final(caches)@ == old(caches)@,
            None => match group_lookup(old(caches)@, lang@, key@) {
                Some(v) => r matches CacheOutcome::Cached(c) && option_response_view(c) == v && final(caches)@
                    == old(caches)@,
                None => r is Started && final(caches)@ == group_insert(old(caches)@, lang@, key@, None),
            },
        },
{
    match dicts.translate(lang, original) {
        Some(d) => CacheOutcome::Dictionary(d),
        None => match caches.lookup(lang, key) {
            Some(v) => CacheOutcome::Cached(v),
            None => {
                caches.record(lang, key, None);
                CacheOutcome::Started
            },
        },
    }
}

/// A recorded answer is what the cache then gives for that request, and a
/// request marked as being translated gets no answer until one is recorded.
pub proof fn lemma_record_then_lookup(c: CachesView, lang: Seq<char>, key: Seq<char>, value: Option<ResponseView>)
    requires
        groups_unique(c),
    ensures
        group_lookup(group_insert(c, lang, key, value), lang, key) == Some(value),
        groups_unique(group_insert(c, lang, key, value)),
{
    lemma_group_insert(c, lang, key, value);
}

/// Forget every dictionary and every cached answer.
pub fn reset(dicts: &mut SimpleDictionaries, caches: &mut TranslationCaches)
    ensures
        final(dicts)@.len() == 0,
        final(caches)@.len() == 0,
{
    dicts.reset();
    caches.clear();
}

/// After a reset nothing is translated by a dictionary and no answer is
/// cached, in any language.
pub proof fn lemma_reset_forgets(d: DictsView, c: CachesView, lang: Seq<char>, text: Seq<char>)
    requires
        d.len() == 0,
        c.len() == 0,
    ensures
        spec_simple_translate(d, lang, text) is None,
        group_lookup(c, lang, text) is None,
{
    lemma_key_index_none(d, lang);
    lemma_key_index_none(c, lang);
}

// ---------------------------------------------------------------------------
// Translating

/// The version string the game shows, with the mod's name, platform and
/// version added.
pub open spec fn version_text(game: crate::game::GameInfoView) -> Seq<char> {
    game.version + seq![' ', '+', ' '] + mod_name_spec() + seq!['-'] + game.os_platform + seq![' ', 'v']
        + game.mod_version
}

/// The translation of `original`: the game's version string gets the mod's
/// name and version added; other text is looked up in the dictionary of the
/// language, then in the rule sets (`ruleset`, what they give).
pub open spec fn spec_do_translate(original: Seq<char>, game: crate::game::GameInfoView, dicts: DictsView, lang: Seq<char>, ruleset: Option<Seq<char>>) -> Option<ResponseView> {
    if original == game.version {
        Some((version_text(game), TextAlignment::Left))
    } else {
        match spec_simple_translate(dicts, lang, original) {
            Some(r) => Some(r),
            None => match ruleset {
                Some(t) => Some((t, TextAlignment::Left)),
                None => None,
            },
        }
    }
}

/// Translate `original` in language `lang`; `ruleset` is what the rule sets
/// of the language give for it.
pub fn do_translate(original: &str, game: &GameInfo, dicts: &SimpleDictionaries, lang: &str, ruleset: Option<String>) -> (r: Option<TranslationResponse>)
    ensures
        option_response_view(r) == spec_do_translate(original@, game@, dicts@, lang@, opt_str_view(ruleset)),
{
    let ochars = string_to_chars(original);
    let vchars = string_to_chars(crate::game::version(game));
    if chars_equal(&ochars, &vchars) {
        let mut text: Vec<char> = Vec::new();
        crate::strings::append_str(&mut text, crate::game::version(game));
        crate::strings::append_str(&mut text, " + ");
        crate::strings::append_str(&mut text, mod_name());
        crate::strings::append_str(&mut text, "-");
        crate::strings::append_str(&mut text, crate::game::os_platform(game));
        crate::strings::append_str(&mut text, " v");
        crate::strings::append_str(&mut text, crate::game::mod_version(game));
        proof {
            reveal_strlit(" + ");
            reveal_strlit("-");
            reveal_strlit(" v");
            assert(text@ =~= version_text(game@));
        }
        return Some(TranslationResponse { translated: chars_to_string(&text), alignment: TextAlignment::Left });
    }
    match dicts.translate(lang, original) {
        Some(r) => Some(r),
        None => match ruleset {
            Some(t) => Some(TranslationResponse { translated: t, alignment: TextAlignment::Left }),
            None => None,
        },
    }
}

} // verus!
