//! The markup text boxes the mod manages: parsed boxes cached by their
//! markup, and the markup each of the game's text boxes was made from.

use std::collections::HashMap;

use vstd::prelude::*;

use crate::assoc::{keys_unique, lemma_lookup_absent, lemma_lookup_at, lemma_lookup_update, lookup};
use crate::glyph::GlyphTable;
use crate::markup::{
    is_text, keys_view, laid_out, layout_fits, spec_parsable, spec_parse, spec_set_width, ManagedMarkupTextBox,
    MarkupEnv, MtbView, MtbWordSync, MAX_MARKUP_CHARS,
};

verus! {

/// The managed markup text boxes.
pub struct MarkupRegistry {
    markups: Vec<(String, ManagedMarkupTextBox)>,
    mtbs: HashMap<usize, String>,
}

/// What the registry holds: each parsed box by its markup, and the markup of
/// each of the game's text boxes by its address.
pub struct RegistryView {
    pub markups: Seq<(Seq<char>, MtbView)>,
    pub mtbs: Map<usize, Seq<char>>,
}

impl View for MarkupRegistry {
    type V = RegistryView;

    closed spec fn view(&self) -> RegistryView {
        RegistryView { markups: markups_view(self.markups@), mtbs: self.mtbs@.map_values(|m: String| m@) }
    }
}

spec fn markups_view(v: Seq<(String, ManagedMarkupTextBox)>) -> Seq<(Seq<char>, MtbView)> {
    v.map_values(|e: (String, ManagedMarkupTextBox)| (e.0@, e.1@))
}


/// Boxes by markup: each markup once, every box's words of non-negative width.
spec fn markups_ok(m: Seq<(Seq<char>, MtbView)>) -> bool {
    &&& keys_unique(m)
    &&& forall|j: int| 0 <= j < m.len() ==> widths_nonneg(#[trigger] m[j].1)
}

/// The words of a box are placed in no negative width.
pub open spec fn widths_nonneg(b: MtbView) -> bool {
    forall|j: int| 0 <= j < b.words.len() ==> (#[trigger] b.words[j]).width >= 0
}

impl MarkupRegistry {
    /// Each markup and each address occurs once, and every box's words have
    /// non-negative widths.
    #[verifier::type_invariant]
    spec fn wf(&self) -> bool {
        &&& markups_ok(self@.markups)
    }

    /// The box parsed from `markup`, if it was.
    pub open spec fn markup_box(&self, markup: Seq<char>) -> Option<MtbView> {
        lookup(self@.markups, markup)
    }

    /// The markup tracked for the game's text box at `address`, if any.
    pub open spec fn tracked_markup(&self, address: usize) -> Option<Seq<char>> {
        if self@.mtbs.contains_key(address) {
            Some(self@.mtbs[address])
        } else {
            None
        }
    }

    pub fn new() -> (r: MarkupRegistry)
        ensures
            r@.markups.len() == 0,
            r@.mtbs == Map::<usize, Seq<char>>::empty(),
    {
        let r = MarkupRegistry { markups: Vec::new(), mtbs: HashMap::new() };
        proof {
            assert(r@.markups =~= Seq::<(Seq<char>, MtbView)>::empty());
            assert(r@.mtbs =~= Map::<usize, Seq<char>>::empty());
        }
        r
    }

    proof fn lemma_entry(&self, i: int)
        requires
            0 <= i < self.markups@.len(),
        ensures
            self@.markups[i] == (self.markups@[i].0@, self.markups@[i].1@),
    {
    }

    fn find_markup(&self, key: &String) -> (r: Option<usize>)
        ensures
            match r {
                Some(i) => i < self@.markups.len() && self@.markups[i as int].0 == key@,
                None => forall|j: int| 0 <= j < self@.markups.len() ==> (#[trigger] self@.markups[j]).0 != key@,
            },
    {
        let mut i: usize = 0;
        while i < self.markups.len()
            invariant
                i <= self.markups@.len(),
                forall|j: int| 0 <= j < i ==> (#[trigger] self@.markups[j]).0 != key@,
            decreases self.markups@.len() - i,
        {
            proof {
                self.lemma_entry(i as int);
            }
            if self.markups[i].0 == *key {
                return Some(i);
            }
            i += 1;
        }
        None
    }
}


/// Forget all parsed boxes; the tracked markups stay.
pub fn reset(registry: &mut MarkupRegistry)
    ensures
        final(registry)@.markups.len() == 0,
        final(registry)@.mtbs == old(registry)@.mtbs,
{
    proof {
        use_type_invariant(&*registry);
        assert(markups_view(Seq::empty()) =~= Seq::<(Seq<char>, MtbView)>::empty());
    }
    registry.markups = Vec::new();
}


/// Whether `markup` was parsed.
pub fn contains(registry: &MarkupRegistry, markup: &str) -> (b: bool)
    ensures
        b == (registry.markup_box(markup@) is Some),
{
    proof {
        use_type_invariant(registry);
    }
    let key = markup.to_owned();
    match registry.find_markup(&key) {
        Some(i) => {
            proof {
                lemma_lookup_at(registry@.markups, i as int);
            }
            true
        },
        None => {
            proof {
                lemma_lookup_absent(registry@.markups, markup@);
            }
            false
        },
    }
}


/// The parsed box of `markup`, parsing and keeping it where it was not
/// parsed yet; a box parsed before is given as it was kept.
pub fn get(registry: &mut MarkupRegistry, markup: &str, env: &MarkupEnv, key_displays: &Vec<(i32, String)>) -> (mtb:
    ManagedMarkupTextBox)
    requires
        env.wf(),
        markup@.len() <= MAX_MARKUP_CHARS,
        old(registry).markup_box(markup@) is None ==> spec_parsable(markup@, env, keys_view(key_displays@)),
    ensures
        mtb@ == match old(registry).markup_box(markup@) {
            Some(b) => b,
            None => spec_parse(markup@, env, keys_view(key_displays@)),
        },
        final(registry).markup_box(markup@) == Some(mtb@),
        forall|k: Seq<char>| k != markup@ ==> #[trigger] final(registry).markup_box(k) == old(registry).markup_box(k),
        final(registry)@.mtbs == old(registry)@.mtbs,
{
    proof {
        use_type_invariant(&*registry);
    }
    let key = markup.to_owned();
    match registry.find_markup(&key) {
        Some(i) => {
            proof {
                lemma_lookup_at(registry@.markups, i as int);
                registry.lemma_entry(i as int);
            }
            registry.markups[i].1.duplicate()
        },
        None => {
            proof {
                lemma_lookup_absent(registry@.markups, markup@);
            }
            let mtb = ManagedMarkupTextBox::parse(markup, env, key_displays);
            proof {
                crate::markup::lemma_parse_words_ok(markup@, env, keys_view(key_displays@));
                assert(widths_nonneg(mtb@));
            }
            let copy = mtb.duplicate();
            let ghost s0 = registry@.markups;
            let mut markups: Vec<(String, ManagedMarkupTextBox)> = Vec::new();
            proof {
                assert(markups_view(markups@) =~= Seq::<(Seq<char>, MtbView)>::empty());
            }
            std::mem::swap(&mut markups, &mut registry.markups);
            markups.push((key, copy));
            proof {
                let m = markups_view(markups@);
                assert(m =~= s0.push((markup@, mtb@)));
                assert forall|a: int, b: int| 0 <= a < b < m.len() implies (#[trigger] m[a]).0 != (
                #[trigger] m[b]).0 by {
                    if b == s0.len() {
                        assert(m[a] == s0[a]);
                    } else {
                        assert(m[a] == s0[a] && m[b] == s0[b]);
                    }
                }
                assert forall|j: int| 0 <= j < m.len() implies widths_nonneg(#[trigger] m[j].1) by {
                    if j < s0.len() {
                        assert(m[j] == s0[j]);
                    }
                }
                assert(m.drop_last() =~= s0);
            }
            registry.markups = markups;
            mtb
        },
    }
}


/// Lay out the box of `markup` for `width` columns and give what the
/// game's text box takes of it: its words, width and last row. `None`
/// where `markup` was not parsed, and then nothing changes.
pub fn set_width_and_sync(registry: &mut MarkupRegistry, markup: &str, glyphs: &GlyphTable, width: i32, fill: bool) -> (r:
    Option<(Vec<MtbWordSync>, i32, i32)>)
    requires
        glyphs.wf(),
        old(registry).markup_box(markup@) matches Some(b) ==> layout_fits(glyphs, b, width),
    ensures
        final(registry)@.mtbs == old(registry)@.mtbs,
        match old(registry).markup_box(markup@) {
            None => r is None && final(registry)@ == old(registry)@,
            Some(b) => {
                let b2 = spec_set_width(glyphs, b, width);
                &&& final(registry).markup_box(markup@) == Some(b2)
                &&& forall|k: Seq<char>| k != markup@ ==> #[trigger] final(registry).markup_box(k) == old(registry).markup_box(k)
                &&& r matches Some(out) && synced(b2, fill, out)
            },
        },
{
    proof {
        use_type_invariant(&*registry);
    }
    let key = markup.to_owned();
    match registry.find_markup(&key) {
        None => {
            proof {
                lemma_lookup_absent(registry@.markups, markup@);
            }
            None
        },
        Some(i) => {
            proof {
                lemma_lookup_at(registry@.markups, i as int);
                registry.lemma_entry(i as int);
            }
            let ghost s0 = registry@.markups;
            let mut markups: Vec<(String, ManagedMarkupTextBox)> = Vec::new();
            proof {
                assert(markups_view(markups@) =~= Seq::<(Seq<char>, MtbView)>::empty());
            }
            std::mem::swap(&mut markups, &mut registry.markups);
            let (k, mut mtb) = markups.remove(i);
            let ghost b = mtb@;
            mtb.set_width(glyphs, width);
            proof {
                assert forall|j: int| 0 <= j < mtb@.words.len() implies (#[trigger] mtb@.words[j]).width >= 0 by {
                    if b.current_width != width && is_text(b.words[j]) {
                    } else if b.current_width != width {
                        assert(mtb@.words[j] == b.words[j]);
                    }
                }
            }
            let out = mtb.sync_words(fill);
            let cw = mtb.current_width();
            let my = mtb.max_y();
            markups.insert(i, (k, mtb));
            proof {
                let m = markups_view(markups@);
                assert(m =~= s0.update(i as int, (markup@, mtb@)));
                lemma_lookup_update(s0, i as int, mtb@, markup@);
                assert forall|q: Seq<char>| q != markup@ implies #[trigger] lookup(m, q) == lookup(s0, q) by {
                    lemma_lookup_update(s0, i as int, mtb@, q);
                }
                assert forall|a: int, c: int| 0 <= a < c < m.len() implies (#[trigger] m[a]).0 != (
                #[trigger] m[c]).0 by {
                    assert(m[a].0 == s0[a].0 && m[c].0 == s0[c].0);
                }
                assert forall|j: int| 0 <= j < m.len() implies widths_nonneg(#[trigger] m[j].1) by {
                    if j != i {
                        assert(m[j] == s0[j]);
                    }
                }
            }
            registry.markups = markups;
            Some((out, cw, my))
        },
    }
}


/// What the game's text box takes of the box of `markup`, as it is laid
/// out; `None` where `markup` was not parsed.
pub fn sync(registry: &MarkupRegistry, markup: &str, fill: bool) -> (r: Option<(Vec<MtbWordSync>, i32, i32)>)
    ensures
        match registry.markup_box(markup@) {
            None => r is None,
            Some(b) => r matches Some(out) && synced(b, fill, out),
        },
{
    proof {
        use_type_invariant(registry);
    }
    let key = markup.to_owned();
    match registry.find_markup(&key) {
        None => {
            proof {
                lemma_lookup_absent(registry@.markups, markup@);
            }
            None
        },
        Some(i) => {
            proof {
                lemma_lookup_at(registry@.markups, i as int);
                registry.lemma_entry(i as int);
                assert(widths_nonneg(registry@.markups[i as int].1));
            }
            let mtb = &registry.markups[i].1;
            Some((mtb.sync_words(fill), mtb.current_width(), mtb.max_y()))
        },
    }
}


/// Remember that the game's text box at `address` was made from `markup`.
pub fn track_mtb_markup(registry: &mut MarkupRegistry, address: usize, markup: String)
    ensures
        final(registry).tracked_markup(address) == Some(markup@),
        forall|a: usize| a != address ==> #[trigger] final(registry).tracked_markup(a) == old(registry).tracked_markup(a),
        final(registry)@.markups == old(registry)@.markups,
{
    proof {
        use_type_invariant(&*registry);
    }
    broadcast use vstd::std_specs::hash::group_hash_axioms;
    let ghost s0 = registry@.mtbs;
    let mut mtbs: HashMap<usize, String> = HashMap::new();
    std::mem::swap(&mut mtbs, &mut registry.mtbs);
    let ghost before = mtbs@;
    mtbs.insert(address, markup);
    proof {
        assert(mtbs@.map_values(|m: String| m@) =~= before.map_values(|m: String| m@).insert(address, markup@));
    }
    registry.mtbs = mtbs;
}


/// The markup the game's text box at `address` was made from, if it was
/// tracked.
pub fn fetch_mtb_markup(registry: &MarkupRegistry, address: usize) -> (r: Option<String>)
    ensures
        match r {
            Some(s) => registry.tracked_markup(address) == Some(s@),
            None => registry.tracked_markup(address) is None,
        },
{
    proof {
        use_type_invariant(registry);
    }
    broadcast use vstd::std_specs::hash::group_hash_axioms;
    match registry.mtbs.get(&address) {
        Some(m) => Some(m.clone()),
        None => None,
    }
}


/// The tracked markups, by address.
pub fn get_mtbs(registry: &MarkupRegistry) -> (m: &HashMap<usize, String>)
    ensures
        m@.map_values(|s: String| s@) == registry@.mtbs,
{
    &registry.mtbs
}

/// `out` is what the game's text box takes of `b`: its words, its width and
/// its last row.
pub open spec fn synced(b: MtbView, fill: bool, out: (Vec<MtbWordSync>, i32, i32)) -> bool {
    &&& out.0@.len() == b.words.len()
    &&& forall|j: int|
        0 <= j < b.words.len() ==> {
            &&& (#[trigger] out.0@[j]).text@ == crate::markup::sync_text(b.words[j], fill)
            &&& out.0@[j].link_index == b.words[j].link_index
            &&& out.0@[j].px == b.words[j].x
            &&& out.0@[j].py == b.words[j].y
            &&& out.0@[j].flags == b.words[j].flags
        }
    &&& out.1 == b.current_width
    &&& out.2 == b.max_y
}

} // verus!
