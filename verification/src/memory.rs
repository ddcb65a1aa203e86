//! Game memory bookkeeping: the regions of the loaded modules, byte-pattern
//! searches over their memory, and the pointers the searches find.

use indexmap::IndexMap;
use vstd::prelude::*;

use crate::assoc::{
    assoc_insert, find_key, group_insert, key_index, keys_unique, lemma_assoc_insert_unique, lemma_key_index,
    lemma_key_index_at, lemma_key_index_none,
};

verus! {

// ---------------------------------------------------------------------------
// Memory regions

/// A memory region: module path, module base address, start and end (past
/// the last byte) address.
pub type MemoryRegion = (String, usize, usize, usize);

/// A file offset: module path and offset in it.
pub type FileOffset = (String, usize);

pub type RegionView = (Seq<char>, usize, usize, usize);

/// The first region at or after `from` of module `path` at `base` that ends
/// (`at_end`) or starts (otherwise) at `pos`.
pub open spec fn find_adjacent(rs: Seq<RegionView>, path: Seq<char>, base: usize, pos: usize, at_end: bool, from: int) -> Option<int>
    decreases rs.len() - from,
{
    if from < 0 || from >= rs.len() {
        None
    } else if rs[from].0 == path && rs[from].1 == base && (if at_end {
        rs[from].3 == pos
    } else {
        rs[from].2 == pos
    }) {
        Some(from)
    } else {
        find_adjacent(rs, path, base, pos, at_end, from + 1)
    }
}

/// Add region `start..end` of module `path` at `base`, merged with a region of
/// the same module that ends where it starts and one that starts where it
/// ends.
pub open spec fn spec_add_region(rs: Seq<RegionView>, path: Seq<char>, base: usize, start: usize, end: usize) -> Seq<RegionView> {
    let l = find_adjacent(rs, path, base, start, true, 0);
    let r1 = match l {
        Some(i) => rs.remove(i),
        None => rs,
    };
    let s1 = match l {
        Some(i) => rs[i].2,
        None => start,
    };
    let r = find_adjacent(r1, path, base, end, false, 0);
    let r2 = match r {
        Some(j) => r1.remove(j),
        None => r1,
    };
    let e2 = match r {
        Some(j) => r1[j].3,
        None => end,
    };
    r2.push((path, base, s1, e2))
}

/// The first region at or after `from` that holds `address`.
pub open spec fn region_for(rs: Seq<RegionView>, address: usize, from: int) -> Option<int>
    decreases rs.len() - from,
{
    if from < 0 || from >= rs.len() {
        None
    } else if rs[from].2 <= address < rs[from].3 {
        Some(from)
    } else {
        region_for(rs, address, from + 1)
    }
}

/// Some region holds `address`.
pub open spec fn covered(rs: Seq<RegionView>, path: Seq<char>, base: usize, address: usize) -> bool {
    exists|j: int| 0 <= j < rs.len() && (#[trigger] rs[j]).0 == path && rs[j].1 == base && rs[j].2 <= address < rs[j].3
}

/// No region ends before it starts.
pub open spec fn regions_ordered(rs: Seq<RegionView>) -> bool {
    forall|j: int| 0 <= j < rs.len() ==> (#[trigger] rs[j]).2 <= rs[j].3
}

/// The memory regions of the loaded modules.
pub struct MemoryRegions {
    regions: Vec<MemoryRegion>,
}

impl View for MemoryRegions {
    type V = Seq<RegionView>;

    closed spec fn view(&self) -> Seq<RegionView> {
        self.regions@.map_values(|r: MemoryRegion| (r.0@, r.1, r.2, r.3))
    }
}

pub proof fn lemma_find_adjacent(rs: Seq<RegionView>, path: Seq<char>, base: usize, pos: usize, at_end: bool, from: int)
    requires
        0 <= from,
    ensures
        match find_adjacent(rs, path, base, pos, at_end, from) {
            Some(i) => from <= i < rs.len() && rs[i].0 == path && rs[i].1 == base && (if at_end {
                rs[i].3 == pos
            } else {
                rs[i].2 == pos
            }),
            None => forall|j: int|
                from <= j < rs.len() ==> !((#[trigger] rs[j]).0 == path && rs[j].1 == base && (if at_end {
                    rs[j].3 == pos
                } else {
                    rs[j].2 == pos
                })),
        },
    decreases rs.len() - from,
{
    if from < rs.len() {
        lemma_find_adjacent(rs, path, base, pos, at_end, from + 1);
    }
}

pub proof fn lemma_region_for(rs: Seq<RegionView>, address: usize, from: int)
    requires
        0 <= from,
    ensures
        match region_for(rs, address, from) {
            Some(i) => from <= i < rs.len() && rs[i].2 <= address < rs[i].3,
            None => forall|j: int| from <= j < rs.len() ==> !((#[trigger] rs[j]).2 <= address < rs[j].3),
        },
    decreases rs.len() - from,
{
    if from < rs.len() {
        lemma_region_for(rs, address, from + 1);
    }
}

impl MemoryRegions {
    pub fn new() -> (r: MemoryRegions)
        ensures
            r@ == Seq::<RegionView>::empty(),
    {
        let r = MemoryRegions { regions: Vec::new() };
        proof {
            assert(r@ =~= Seq::<RegionView>::empty());
        }
        r
    }

    /// The number of regions.
    pub fn len(&self) -> (n: usize)
        ensures
            n == self@.len(),
    {
        self.regions.len()
    }

    /// Whether no region ends before it starts.
    pub fn ordered(&self) -> (b: bool)
        ensures
            b == regions_ordered(self@),
    {
        let mut i: usize = 0;
        while i < self.regions.len()
            invariant
                i <= self.regions@.len(),
                forall|j: int| 0 <= j < i ==> (#[trigger] self@[j]).2 <= self@[j].3,
            decreases self.regions@.len() - i,
        {
            proof {
                assert(self@[i as int] == (self.regions@[i as int].0@, self.regions@[i as int].1, self.regions@[i as int].2, self.regions@[i as int].3));
            }
            if self.regions[i].2 > self.regions[i].3 {
                return false;
            }
            i += 1;
        }
        true
    }

    /// The module path, base, start and end of region `i`.
    pub fn region(&self, i: usize) -> (r: &MemoryRegion)
        requires
            i < self@.len(),
        ensures
            (r.0@, r.1, r.2, r.3) == self@[i as int],
    {
        &self.regions[i]
    }

    /// The module base and start address of region `i`.
    pub fn base_and_start(&self, i: usize) -> (r: (usize, usize))
        requires
            i < self@.len(),
        ensures
            r.0 == self@[i as int].1,
            r.1 == self@[i as int].2,
    {
        (self.regions[i].1, self.regions[i].2)
    }

    fn find_adjacent(&self, path: &String, base: usize, pos: usize, at_end: bool) -> (r: Option<usize>)
        ensures
            match r {
                Some(i) => find_adjacent(self@, path@, base, pos, at_end, 0) == Some(i as int),
                None => find_adjacent(self@, path@, base, pos, at_end, 0) is None,
            },
    {
        let mut i: usize = 0;
        while i < self.regions.len()
            invariant
                i <= self.regions@.len(),
                find_adjacent(self@, path@, base, pos, at_end, 0) == find_adjacent(self@, path@, base, pos, at_end, i as int),
            decreases self.regions@.len() - i,
        {
            let r = &self.regions[i];
            proof {
                assert(self@[i as int] == (r.0@, r.1, r.2, r.3));
            }
            let hit = if at_end {
                r.3 == pos
            } else {
                r.2 == pos
            };
            if r.0 == *path && r.1 == base && hit {
                return Some(i);
            }
            i += 1;
        }
        None
    }

    /// Add a region of module `path` at `base`, merged with the regions of the
    /// same module next to it.
    pub fn add_memory_region(&mut self, path: String, base: usize, start: usize, end: usize)
        ensures
            final(self)@ == spec_add_region(old(self)@, path@, base, start, end),
    {
        let ghost rs = self@;
        let mut start = start;
        let mut end = end;
        if let Some(l) = self.find_adjacent(&path, base, start, true) {
            proof {
                lemma_find_adjacent(rs, path@, base, start, true, 0);
            }
            let left = self.regions.remove(l);
            start = left.2;
            proof {
                assert(self@ =~= rs.remove(l as int));
            }
        }
        let ghost r1 = self@;
        if let Some(r) = self.find_adjacent(&path, base, end, false) {
            proof {
                lemma_find_adjacent(r1, path@, base, end, false, 0);
            }
            let right = self.regions.remove(r);
            end = right.3;
            proof {
                assert(self@ =~= r1.remove(r as int));
            }
        }
        let ghost r2 = self@;
        let ghost p = path@;
        self.regions.push((path, base, start, end));
        proof {
            assert(self@ =~= r2.push((p, base, start, end)));
        }
    }

    /// The module path and file offset of `memory_address`, from the first
    /// region that holds it.
    pub fn get_file_offset_by_memory_address(&self, memory_address: usize) -> (r: Option<FileOffset>)
        requires
            region_for(self@, memory_address, 0) matches Some(i) ==> self@[i].1 <= memory_address,
        ensures
            match region_for(self@, memory_address, 0) {
                Some(i) => r matches Some(f) && f.0@ == self@[i].0 && f.1 == memory_address - self@[i].1,
                None => r is None,
            },
    {
        let mut i: usize = 0;
        while i < self.regions.len()
            invariant
                i <= self.regions@.len(),
                region_for(self@, memory_address, 0) == region_for(self@, memory_address, i as int),
                region_for(self@, memory_address, 0) matches Some(j) ==> self@[j].1 <= memory_address,
            decreases self.regions@.len() - i,
        {
            let r = &self.regions[i];
            proof {
                assert(self@[i as int] == (r.0@, r.1, r.2, r.3));
            }
            if r.2 <= memory_address && memory_address < r.3 {
                return Some((r.0.clone(), memory_address - r.1));
            }
            i += 1;
        }
        None
    }
}

/// The region `add_memory_region` merges with on the left: one of the same
/// module that ends where the new one starts.
pub open spec fn left_neighbour(rs: Seq<RegionView>, path: Seq<char>, base: usize, start: usize) -> Option<int> {
    find_adjacent(rs, path, base, start, true, 0)
}

/// The regions left after the left neighbour is taken out.
pub open spec fn without_left(rs: Seq<RegionView>, path: Seq<char>, base: usize, start: usize) -> Seq<RegionView> {
    match left_neighbour(rs, path, base, start) {
        Some(i) => rs.remove(i),
        None => rs,
    }
}

/// The region merged with on the right, among the regions left: one of the
/// same module that starts where the new one ends.
pub open spec fn right_neighbour(rs: Seq<RegionView>, path: Seq<char>, base: usize, start: usize, end: usize) -> Option<int> {
    find_adjacent(without_left(rs, path, base, start), path, base, end, false, 0)
}

/// `a` lies in region `r`.
pub open spec fn in_region(r: RegionView, a: usize) -> bool {
    r.2 <= a < r.3
}

/// The merged region spans exactly the addresses of the left neighbour, the
/// new region and the right neighbour. So it does where each of them starts
/// at or before its end.
pub open spec fn merge_exact(rs: Seq<RegionView>, path: Seq<char>, base: usize, start: usize, end: usize) -> bool {
    let r1 = without_left(rs, path, base, start);
    let last = spec_add_region(rs, path, base, start, end).last();
    forall|a: usize|
        #[trigger] in_region(last, a) <==> ((match left_neighbour(rs, path, base, start) {
            Some(i) => rs[i].2 <= a < rs[i].3,
            None => false,
        }) || start <= a < end || (match right_neighbour(rs, path, base, start, end) {
            Some(j) => r1[j].2 <= a < r1[j].3,
            None => false,
        }))
}

/// Where the new region and the regions it merges with each start at or
/// before their end, the merged region spans exactly their addresses.
pub proof fn lemma_merge_exact(rs: Seq<RegionView>, path: Seq<char>, base: usize, start: usize, end: usize)
    requires
        start <= end,
        left_neighbour(rs, path, base, start) matches Some(i) ==> rs[i].2 <= rs[i].3,
        right_neighbour(rs, path, base, start, end) matches Some(j) ==> without_left(rs, path, base, start)[j].2
            <= without_left(rs, path, base, start)[j].3,
    ensures
        merge_exact(rs, path, base, start, end),
{
    lemma_find_adjacent(rs, path, base, start, true, 0);
    lemma_find_adjacent(without_left(rs, path, base, start), path, base, end, false, 0);
}

/// Each region of `without_left` is one of `rs`, at the same place or one
/// later.
proof fn lemma_without_left(rs: Seq<RegionView>, path: Seq<char>, base: usize, start: usize)
    ensures
        without_left(rs, path, base, start).len() + (if left_neighbour(rs, path, base, start) is Some {
            1int
        } else {
            0int
        }) == rs.len(),
        forall|j: int|
            0 <= j < without_left(rs, path, base, start).len() ==> #[trigger] without_left(rs, path, base, start)[j]
                == rs[match left_neighbour(rs, path, base, start) {
                Some(i) => if j < i {
                    j
                } else {
                    j + 1
                },
                None => j,
            }],
{
    lemma_find_adjacent(rs, path, base, start, true, 0);
}

/// Adding a region of a module covers, for that module, exactly its addresses
/// besides those covered before, and covers for every other module what was
/// covered before, wherever the merged region spans exactly the regions it
/// is made of (`merge_exact`; so it does where they each start at or before
/// their end, `lemma_merge_exact`).
pub proof fn lemma_add_region_covers(
    rs: Seq<RegionView>,
    path: Seq<char>,
    base: usize,
    start: usize,
    end: usize,
    p: Seq<char>,
    b: usize,
    address: usize,
)
    requires
        merge_exact(rs, path, base, start, end),
    ensures
        covered(spec_add_region(rs, path, base, start, end), p, b, address) <==> (covered(rs, p, b, address) || (p
            == path && b == base && start <= address < end)),
{
    let new = spec_add_region(rs, path, base, start, end);
    let l = left_neighbour(rs, path, base, start);
    let r1 = without_left(rs, path, base, start);
    let r = right_neighbour(rs, path, base, start, end);
    lemma_find_adjacent(rs, path, base, start, true, 0);
    lemma_find_adjacent(r1, path, base, end, false, 0);
    lemma_without_left(rs, path, base, start);
    lemma_without_left(r1, path, base, end);
    let r2 = match r {
        Some(j) => r1.remove(j),
        None => r1,
    };
    let last = new.len() - 1;
    assert(new == r2.push(new[last]));
    assert(new[last].0 == path && new[last].1 == base);
    // the merged region's test at `address`
    assert((new[last].2 <= address < new[last].3) <==> ((match l {
        Some(i) => rs[i].2 <= address < rs[i].3,
        None => false,
    }) || start <= address < end || (match r {
        Some(j) => r1[j].2 <= address < r1[j].3,
        None => false,
    }))) by {
        assert(new.last() == new[last]);
        assert(in_region(new.last(), address) == (new[last].2 <= address < new[last].3));
    }
    if covered(new, p, b, address) {
        let j = choose|j: int|
            0 <= j < new.len() && (#[trigger] new[j]).0 == p && new[j].1 == b && new[j].2 <= address < new[j].3;
        if j < r2.len() {
            assert(new[j] == r2[j]);
            let k1 = match r {
                Some(jr) => if j < jr {
                    j
                } else {
                    j + 1
                },
                None => j,
            };
            assert(r2[j] == r1[k1]);
            let k = match l {
                Some(i) => if k1 < i {
                    k1
                } else {
                    k1 + 1
                },
                None => k1,
            };
            assert(r1[k1] == rs[k]);
            assert(rs[k].0 == p && rs[k].1 == b && rs[k].2 <= address < rs[k].3);
        } else {
            assert(j == last);
            if let Some(i) = l {
                if rs[i].2 <= address < rs[i].3 {
                    assert(rs[i].0 == p && rs[i].1 == b);
                }
            }
            if let Some(jr) = r {
                if r1[jr].2 <= address < r1[jr].3 {
                    let k = match l {
                        Some(i) => if jr < i {
                            jr
                        } else {
                            jr + 1
                        },
                        None => jr,
                    };
                    assert(r1[jr] == rs[k]);
                    assert(rs[k].0 == p && rs[k].1 == b && rs[k].2 <= address < rs[k].3);
                }
            }
        }
    }
    if covered(rs, p, b, address) {
        let k = choose|k: int|
            0 <= k < rs.len() && (#[trigger] rs[k]).0 == p && rs[k].1 == b && rs[k].2 <= address < rs[k].3;
        if l == Some(k) {
            assert(new[last].2 <= address < new[last].3);
        } else {
            let k1 = match l {
                Some(i) => if k < i {
                    k
                } else {
                    k - 1
                },
                None => k,
            };
            assert(r1[k1] == rs[k]);
            if r == Some(k1) {
                assert(new[last].2 <= address < new[last].3);
            } else {
                let k2 = match r {
                    Some(jr) => if k1 < jr {
                        k1
                    } else {
                        k1 - 1
                    },
                    None => k1,
                };
                assert(r2[k2] == r1[k1]);
                assert(new[k2] == r2[k2]);
            }
        }
    }
    if p == path && b == base && start <= address < end {
        assert(new[last].2 <= address < new[last].3);
    }
}

/// Adding a region keeps every region's start at or before its end, where
/// the new one's does.
pub proof fn lemma_add_region_ordered(rs: Seq<RegionView>, path: Seq<char>, base: usize, start: usize, end: usize)
    requires
        regions_ordered(rs),
        start <= end,
    ensures
        regions_ordered(spec_add_region(rs, path, base, start, end)),
{
    let new = spec_add_region(rs, path, base, start, end);
    let l = left_neighbour(rs, path, base, start);
    let r1 = without_left(rs, path, base, start);
    let r = right_neighbour(rs, path, base, start, end);
    lemma_find_adjacent(rs, path, base, start, true, 0);
    lemma_find_adjacent(r1, path, base, end, false, 0);
    lemma_without_left(rs, path, base, start);
    lemma_without_left(r1, path, base, end);
    let r2 = match r {
        Some(j) => r1.remove(j),
        None => r1,
    };
    let last = new.len() - 1;
    assert(new == r2.push(new[last]));
    assert(regions_ordered(r1)) by {
        assert forall|j: int| 0 <= j < r1.len() implies (#[trigger] r1[j]).2 <= r1[j].3 by {
            let k = match l {
                Some(i) => if j < i {
                    j
                } else {
                    j + 1
                },
                None => j,
            };
            assert(r1[j] == rs[k]);
        }
    }
    assert forall|j: int| 0 <= j < new.len() implies (#[trigger] new[j]).2 <= new[j].3 by {
        if j < r2.len() {
            let k1 = match r {
                Some(jr) => if j < jr {
                    j
                } else {
                    j + 1
                },
                None => j,
            };
            assert(new[j] == r2[j]);
            assert(r2[j] == r1[k1]);
        } else {
            if let Some(i) = l {
                assert(rs[i].2 <= rs[i].3);
            }
            if let Some(jr) = r {
                assert(r1[jr].2 <= r1[jr].3);
            }
        }
    }
}


// ---------------------------------------------------------------------------
// Byte-pattern searches

/// A token of a search pattern.
#[derive(Clone, Copy, Debug, PartialEq, Eq, Structural)]
pub enum Token {
    /// A known byte, written as two hex digits.
    Value(u8),
    /// Any ASCII digit, written `##`.
    Digit,
    /// Any byte, written `??`.
    Wildcard,
}

/// Why a memory search could not be run.
#[derive(Clone, Copy, Debug, PartialEq, Eq, Structural)]
pub enum MemoryError {
    /// A pattern token is neither `??`, `##` nor a hexadecimal byte.
    InvalidPattern,
    /// A region's path has no directory separator.
    InvalidModulePath,
    /// A symbol search names a module no region belongs to.
    NoModulePath,
    /// A module could not be loaded.
    ModuleLoadFailed,
    /// A symbol is not in its module.
    SymbolNotFound,
    /// A symbol's address is in no memory region.
    NoFileOffset,
    /// No pointer was found for a key.
    PointerNotFound,
}

/// The pieces of `s` between single spaces; an empty string is one empty
/// piece.
pub open spec fn split_spaces(s: Seq<char>) -> Seq<Seq<char>>
    decreases s.len(),
{
    if s.len() == 0 {
        seq![Seq::empty()]
    } else {
        let p = split_spaces(s.drop_last());
        if s.last() == ' ' {
            p.push(Seq::empty())
        } else {
            p.update(p.len() - 1, p.last().push(s.last()))
        }
    }
}

pub proof fn lemma_split_spaces_len(s: Seq<char>)
    ensures
        split_spaces(s).len() >= 1,
    decreases s.len(),
{
    if s.len() > 0 {
        lemma_split_spaces_len(s.drop_last());
    }
}

pub open spec fn hex_digit_value(c: char) -> int {
    if '0' <= c <= '9' {
        c as int - '0' as int
    } else if 'a' <= c <= 'f' {
        c as int - 'a' as int + 10
    } else if 'A' <= c <= 'F' {
        c as int - 'A' as int + 10
    } else {
        -1
    }
}

/// The value of a string of hex digits, `None` where a character is not
/// one.
pub open spec fn hex_value(s: Seq<char>) -> Option<int>
    decreases s.len(),
{
    if s.len() == 0 {
        Some(0)
    } else {
        match hex_value(s.drop_last()) {
            Some(v) => if hex_digit_value(s.last()) >= 0 {
                Some(v * 16 + hex_digit_value(s.last()))
            } else {
                None
            },
            None => None,
        }
    }
}

/// `u8::from_str_radix(s, 16)`: an optional '+' and at least one hex digit,
/// of value below 256.
pub open spec fn spec_parse_hex_u8(s: Seq<char>) -> Option<u8> {
    let digits = if s.len() > 0 && s[0] == '+' {
        s.drop_first()
    } else {
        s
    };
    if digits.len() == 0 {
        None
    } else {
        match hex_value(digits) {
            Some(v) => if v < 256 {
                Some(v as u8)
            } else {
                None
            },
            None => None,
        }
    }
}

/// The token a piece of pattern stands for.
pub open spec fn spec_token(piece: Seq<char>) -> Option<Token> {
    if piece == seq!['?', '?'] {
        Some(Token::Wildcard)
    } else if piece == seq!['#', '#'] {
        Some(Token::Digit)
    } else {
        match spec_parse_hex_u8(piece) {
            Some(b) => Some(Token::Value(b)),
            None => None,
        }
    }
}

/// The tokens of the pieces `0..n`, `None` where one is invalid.
pub open spec fn spec_tokens(pieces: Seq<Seq<char>>, n: nat) -> Option<Seq<Token>>
    decreases n,
{
    if n == 0 {
        Some(Seq::empty())
    } else {
        match spec_tokens(pieces, (n - 1) as nat) {
            Some(ts) => match spec_token(pieces[n - 1]) {
                Some(t) => Some(ts.push(t)),
                None => None,
            },
            None => None,
        }
    }
}

/// The tokens of a pattern: its space-separated pieces.
pub open spec fn spec_pattern(pattern: Seq<char>) -> Option<Seq<Token>> {
    spec_tokens(split_spaces(pattern), split_spaces(pattern).len())
}

pub open spec fn token_matches(t: Token, b: u8) -> bool {
    match t {
        Token::Wildcard => true,
        Token::Digit => 0x30 <= b <= 0x39,
        Token::Value(v) => v == b,
    }
}

/// The pattern matches `data` at `offset`.
pub open spec fn matches_at(tokens: Seq<Token>, data: Seq<u8>, offset: int) -> bool {
    forall|k: int| 0 <= k < tokens.len() ==> token_matches(#[trigger] tokens[k], data[offset + k])
}

/// The offsets below `n` where the pattern matches, in increasing order.
pub open spec fn match_offsets(tokens: Seq<Token>, data: Seq<u8>, n: nat) -> Seq<usize>
    decreases n,
{
    if n == 0 {
        Seq::empty()
    } else {
        let p = match_offsets(tokens, data, (n - 1) as nat);
        if matches_at(tokens, data, n - 1) {
            p.push((n - 1) as usize)
        } else {
            p
        }
    }
}

/// The number of windows of the pattern's length in `data`.
pub open spec fn window_count(tokens: Seq<Token>, data: Seq<u8>) -> nat {
    if data.len() >= tokens.len() {
        (data.len() - tokens.len() + 1) as nat
    } else {
        0
    }
}

/// A memory searcher for a byte pattern.
pub struct Searcher {
    tokens: Vec<Token>,
}

impl View for Searcher {
    type V = Seq<Token>;

    closed spec fn view(&self) -> Seq<Token> {
        self.tokens@
    }
}

impl Searcher {
    /// A searcher has at least one token.
    #[verifier::type_invariant]
    spec fn has_tokens(self) -> bool {
        self.tokens@.len() > 0
    }
}

fn hex_digit(c: char) -> (v: Option<u8>)
    ensures
        match v {
            Some(d) => hex_digit_value(c) == d && d < 16,
            None => hex_digit_value(c) < 0,
        },
{
    if '0' <= c && c <= '9' {
        Some(((c as u32) - ('0' as u32)) as u8)
    } else if 'a' <= c && c <= 'f' {
        Some(((c as u32) - ('a' as u32) + 10) as u8)
    } else if 'A' <= c && c <= 'F' {
        Some(((c as u32) - ('A' as u32) + 10) as u8)
    } else {
        None
    }
}

/// `u8::from_str_radix(piece, 16)`.
fn parse_hex_u8(piece: &Vec<char>) -> (r: Option<u8>)
    ensures
        r == spec_parse_hex_u8(piece@),
{
    let mut k: usize = 0;
    if piece.len() > 0 && piece[0] == '+' {
        k = 1;
    }
    let ghost digits = if piece@.len() > 0 && piece@[0] == '+' {
        piece@.drop_first()
    } else {
        piece@
    };
    proof {
        assert(digits =~= piece@.skip(k as int));
    }
    if k >= piece.len() {
        return None;
    }
    let mut v: u32 = 0;
    while k < piece.len()
        invariant
            1 <= piece@.len() - digits.len() + 1,
            piece@.len() - digits.len() <= k <= piece@.len(),
            digits =~= piece@.skip(piece@.len() - digits.len()),
            digits == (if piece@.len() > 0 && piece@[0] == '+' {
                piece@.drop_first()
            } else {
                piece@
            }),
            digits.len() > 0,
            hex_value(digits.take(k - (piece@.len() - digits.len()))) == Some(v as int),
            v < 256,
        decreases piece@.len() - k,
    {
        let ghost j = k - (piece@.len() - digits.len());
        proof {
            assert(digits.take(j + 1).drop_last() =~= digits.take(j));
            assert(digits.take(j + 1).last() == piece@[k as int]);
        }
        match hex_digit(piece[k]) {
            Some(d) => {
                let nv = v * 16 + d as u32;
                proof {
                    assert(hex_value(digits.take(j + 1)) == Some(nv as int));
                }
                if nv >= 256 {
                    proof {
                        lemma_hex_value_grows(digits, j + 1);
                        assert(spec_parse_hex_u8(piece@) is None);
                    }
                    return None;
                }
                v = nv;
            },
            None => {
                proof {
                    assert(hex_value(digits.take(j + 1)) is None);
                    lemma_hex_value_invalid(digits, j + 1);
                    assert(spec_parse_hex_u8(piece@) is None);
                }
                return None;
            },
        }
        k += 1;
    }
    proof {
        assert(digits.take(digits.len() as int) =~= digits);
    }
    Some(v as u8)
}

/// A value at or above 256 stays so as digits are added.
proof fn lemma_hex_value_grows(s: Seq<char>, n: int)
    requires
        0 <= n <= s.len(),
        hex_value(s.take(n)) matches Some(v) && v >= 256,
    ensures
        hex_value(s) is None || hex_value(s).unwrap() >= 256,
    decreases s.len() - n,
{
    if n < s.len() {
        assert(s.take(n + 1).drop_last() =~= s.take(n));
        if hex_value(s.take(n + 1)) is None {
            lemma_hex_value_invalid(s, n + 1);
        } else {
            lemma_hex_value_grows(s, n + 1);
        }
    } else {
        assert(s.take(n) =~= s);
    }
}

proof fn lemma_hex_value_nonneg(s: Seq<char>)
    ensures
        hex_value(s) matches Some(v) ==> v >= 0,
    decreases s.len(),
{
    if s.len() > 0 {
        lemma_hex_value_nonneg(s.drop_last());
    }
}

/// An invalid digit makes the whole string invalid.
proof fn lemma_hex_value_invalid(s: Seq<char>, n: int)
    requires
        0 <= n <= s.len(),
        hex_value(s.take(n)) is None,
    ensures
        hex_value(s) is None,
    decreases s.len() - n,
{
    if n < s.len() {
        assert(s.take(n + 1).drop_last() =~= s.take(n));
        lemma_hex_value_invalid(s, n + 1);
    } else {
        assert(s.take(n) =~= s);
    }
}

fn token_of(piece: &Vec<char>) -> (t: Option<Token>)
    ensures
        t == spec_token(piece@),
{
    if piece.len() == 2 && piece[0] == '?' && piece[1] == '?' {
        proof {
            assert(piece@ =~= seq!['?', '?']);
        }
        Some(Token::Wildcard)
    } else if piece.len() == 2 && piece[0] == '#' && piece[1] == '#' {
        proof {
            assert(piece@ =~= seq!['#', '#']);
        }
        Some(Token::Digit)
    } else {
        proof {
            assert(piece@ != seq!['?', '?']);
            assert(piece@ != seq!['#', '#']);
        }
        match parse_hex_u8(piece) {
            Some(b) => Some(Token::Value(b)),
            None => None,
        }
    }
}


proof fn lemma_spec_tokens_prefix(a: Seq<Seq<char>>, b: Seq<Seq<char>>, n: nat)
    requires
        n <= a.len(),
        n <= b.len(),
        forall|k: int| 0 <= k < n ==> a[k] == b[k],
    ensures
        spec_tokens(a, n) == spec_tokens(b, n),
    decreases n,
{
    if n > 0 {
        lemma_spec_tokens_prefix(a, b, (n - 1) as nat);
        assert(a[n - 1] == b[n - 1]);
    }
}

proof fn lemma_spec_tokens_none(pieces: Seq<Seq<char>>, k: nat, n: nat)
    requires
        k < n <= pieces.len(),
        spec_token(pieces[k as int]) is None,
    ensures
        spec_tokens(pieces, n) is None,
    decreases n,
{
    if k < n - 1 {
        lemma_spec_tokens_none(pieces, k, (n - 1) as nat);
    }
}

/// The pieces of a prefix, but its last, are pieces of the whole string.
proof fn lemma_split_spaces_prefix(s: Seq<char>, i: int)
    requires
        0 <= i <= s.len(),
    ensures
        split_spaces(s.take(i)).len() <= split_spaces(s).len(),
        forall|k: int|
            0 <= k < split_spaces(s.take(i)).len() - 1 ==> #[trigger] split_spaces(s)[k] == split_spaces(s.take(i))[k],
    decreases s.len() - i,
{
    if i < s.len() {
        assert(s.take(i + 1).drop_last() =~= s.take(i));
        assert(s.take(i + 1).last() == s[i]);
        lemma_split_spaces_len(s.take(i));
        lemma_split_spaces_prefix(s, i + 1);
        let p = split_spaces(s.take(i));
        let q = split_spaces(s.take(i + 1));
        assert forall|k: int| 0 <= k < p.len() - 1 implies #[trigger] split_spaces(s)[k] == p[k] by {
            assert(q[k] == p[k]);
        }
    } else {
        assert(s.take(i) =~= s);
    }
}

impl Searcher {
    /// A searcher for a pattern of space-separated tokens: `??` for any
    /// byte, `##` for any ASCII digit, or a byte in hex.
    pub fn new(pattern: &str) -> (r: Result<Searcher, MemoryError>)
        ensures
            match spec_pattern(pattern@) {
                Some(ts) => r matches Ok(s) && s@ == ts,
                None => r == Err::<Searcher, MemoryError>(MemoryError::InvalidPattern),
            },
    {
        let chars = crate::strings::string_to_chars(pattern);
        let mut tokens: Vec<Token> = Vec::new();
        let mut cur: Vec<char> = Vec::new();
        let mut i: usize = 0;
        let ghost mut count: nat = 0;
        while i < chars.len()
            invariant
                i <= chars@.len(),
                chars@ == pattern@,
                split_spaces(chars@.take(i as int)).len() == count + 1,
                split_spaces(chars@.take(i as int))[count as int] == cur@,
                spec_tokens(split_spaces(chars@.take(i as int)), count) == Some(tokens@),
            decreases chars@.len() - i,
        {
            let ghost before = split_spaces(chars@.take(i as int));
            proof {
                assert(chars@.take(i as int + 1).drop_last() =~= chars@.take(i as int));
                assert(chars@.take(i as int + 1).last() == chars@[i as int]);
                lemma_spec_tokens_prefix(before, split_spaces(chars@.take(i as int + 1)), count);
            }
            if chars[i] == ' ' {
                match token_of(&cur) {
                    Some(t) => {
                        tokens.push(t);
                    },
                    None => {
                        proof {
                            lemma_split_spaces_prefix(chars@, i as int + 1);
                            lemma_spec_tokens_none(split_spaces(chars@), count, split_spaces(chars@).len());
                            assert(split_spaces(chars@)[count as int] == cur@);
                        }
                        return Err(MemoryError::InvalidPattern);
                    },
                }
                cur = Vec::new();
                proof {
                    count = count + 1;
                }
            } else {
                cur.push(chars[i]);
            }
            i += 1;
        }
        proof {
            assert(chars@.take(chars@.len() as int) =~= chars@);
        }
        match token_of(&cur) {
            Some(t) => {
                tokens.push(t);
                Ok(Searcher { tokens })
            },
            None => Err(MemoryError::InvalidPattern),
        }
    }

    /// The offsets in `data` where the pattern matches, in increasing order.
    pub fn matches(&self, data: &[u8]) -> (r: Vec<usize>)
        ensures
            r@ == match_offsets(self@, data@, window_count(self@, data@)),
    {
        proof {
            use_type_invariant(self);
        }
        let mut result: Vec<usize> = Vec::new();
        let n = self.tokens.len();
        if data.len() < n {
            return result;
        }
        let count = data.len() - n + 1;
        let mut offset: usize = 0;
        while offset < count
            invariant
                n == self@.len(),
                count == data@.len() - n + 1,
                offset <= count,
                result@ == match_offsets(self@, data@, offset as nat),
            decreases count - offset,
        {
            let mut k: usize = 0;
            let mut ok = true;
            while ok && k < n
                invariant
                    n == self@.len(),
                    offset < count,
                    count == data@.len() - n + 1,
                    k <= n,
                    ok ==> forall|q: int| 0 <= q < k ==> token_matches(#[trigger] self@[q], data@[offset + q]),
                    !ok ==> !matches_at(self@, data@, offset as int),
                decreases n - k + (if ok {
                    1int
                } else {
                    0int
                }),
            {
                assert(offset + k < data@.len());
                assert(offset + k < data.len());
                let byte = data[offset + k];
                let hit = match self.tokens[k] {
                    Token::Wildcard => true,
                    Token::Digit => 0x30 <= byte && byte <= 0x39,
                    Token::Value(expected) => expected == byte,
                };
                if hit {
                    k += 1;
                } else {
                    ok = false;
                    proof {
                        assert(!token_matches(self@[k as int], data@[offset + k]));
                    }
                }
            }
            proof {
                assert(ok == matches_at(self@, data@, offset as int));
            }
            if ok {
                result.push(offset);
            }
            offset += 1;
        }
        result
    }
}



// ---------------------------------------------------------------------------
// Pointers found by the searches

/// A pointer: the file offset of an address, and the address.
pub type Pointer = (FileOffset, usize);

pub type PointerView = ((Seq<char>, usize), usize);

#[verifier::external_type_specification]
#[verifier::external_body]
#[verifier::reject_recursive_types(K)]
#[verifier::reject_recursive_types(V)]
#[verifier::reject_recursive_types(S)]
pub struct ExIndexMap<K, V, S>(IndexMap<K, V, S>);

/// The entries of a map of pointers by key, in the map's order.
pub uninterp spec fn pointer_entries(m: IndexMap<String, Pointer>) -> Seq<(Seq<char>, PointerView)>;

/// `IndexMap::new`: a map without entries.
#[verifier::external_body]
fn pointer_map_new() -> (m: IndexMap<String, Pointer>)
    ensures
        pointer_entries(m) == Seq::<(Seq<char>, PointerView)>::empty(),
{
    IndexMap::new()
}

/// `IndexMap::insert`: an existing key keeps its place and takes the new
/// value, a new key's entry goes last.
#[verifier::external_body]
fn pointer_map_insert(m: &mut IndexMap<String, Pointer>, key: String, value: Pointer)
    ensures
        pointer_entries(*final(m)) == assoc_insert(pointer_entries(*old(m)), key@, value@),
{
    m.insert(key, value);
}

/// `IndexMap::get`: the value of the entry for `key`, if there is one.
#[verifier::external_body]
fn pointer_map_get<'a>(m: &'a IndexMap<String, Pointer>, key: &str) -> (r: Option<&'a Pointer>)
    ensures
        match key_index(pointer_entries(*m), key@) {
            Some(i) => r matches Some(p) && p@ == pointer_entries(*m)[i].1,
            None => r is None,
        },
{
    m.get(key)
}

/// The pointers the memory searches found, by key.
pub struct Pointers {
    map: IndexMap<String, Pointer>,
}

impl View for Pointers {
    type V = Seq<(Seq<char>, PointerView)>;

    closed spec fn view(&self) -> Seq<(Seq<char>, PointerView)> {
        pointer_entries(self.map)
    }
}

impl Pointers {
    /// Each key occurs once.
    #[verifier::type_invariant]
    spec fn keys_once(&self) -> bool {
        keys_unique(self@)
    }

    pub fn new() -> (p: Pointers)
        ensures
            p@ == Seq::<(Seq<char>, PointerView)>::empty(),
            keys_unique(p@),
    {
        Pointers { map: pointer_map_new() }
    }

    /// Record the pointer for `key`, in place of any earlier one.
    pub fn insert(&mut self, key: String, value: Pointer)
        ensures
            final(self)@ == assoc_insert(old(self)@, key@, value@),
            keys_unique(final(self)@),
    {
        proof {
            use_type_invariant(&*self);
            lemma_assoc_insert_unique(self@, key@, value@);
        }
        let mut map = pointer_map_new();
        std::mem::swap(&mut map, &mut self.map);
        pointer_map_insert(&mut map, key, value);
        self.map = map;
    }
}

/// The pointer found for `key`.
pub fn get_pointer<'a>(pointers: &'a Pointers, key: &str) -> (r: Option<&'a Pointer>)
    ensures
        match key_index(pointers@, key@) {
            Some(i) => r matches Some(p) && p@ == pointers@[i].1,
            None => r is None,
        },
{
    pointer_map_get(&pointers.map, key)
}

/// The memory address found for `key`.
pub fn get_memory_address_by_key(pointers: &Pointers, key: &str) -> (r: Option<usize>)
    ensures
        match key_index(pointers@, key@) {
            Some(i) => r == Some(pointers@[i].1.1),
            None => r is None,
        },
{
    match get_pointer(pointers, key) {
        Some(p) => Some(p.1),
        None => None,
    }
}

/// The memory address found for `key`, as the address of a pointer.
pub fn get_raw_pointer_by_key(pointers: &Pointers, key: &str) -> (r: Result<usize, MemoryError>)
    ensures
        match key_index(pointers@, key@) {
            Some(i) => r == Ok::<usize, MemoryError>(pointers@[i].1.1),
            None => r == Err::<usize, MemoryError>(MemoryError::PointerNotFound),
        },
{
    match get_memory_address_by_key(pointers, key) {
        Some(a) => Ok(a),
        None => Err(MemoryError::PointerNotFound),
    }
}


// ---------------------------------------------------------------------------
// Running the searches

/// A search as the mod's scripts add it: method, module, key and value.
pub type MemorySearch = (String, String, String, String);

pub type SearchView = (Seq<char>, Seq<char>, Seq<char>, Seq<char>);

pub type PatternGroups = Seq<(Seq<char>, Seq<(Seq<char>, Seq<Token>)>)>;

pub type SymbolGroups = Seq<(Seq<char>, Seq<(Seq<char>, Seq<char>)>)>;

/// The searches grouped by module, in order of first mention: pattern
/// searches as (key, searcher) and symbol searches as (symbol, key).
pub struct SearchPlan {
    pub patterns: Vec<(String, Vec<(String, Searcher)>)>,
    pub symbols: Vec<(String, Vec<(String, String)>)>,
}

pub struct PlanView {
    pub patterns: PatternGroups,
    pub symbols: SymbolGroups,
}

pub open spec fn pattern_group_view(g: (String, Vec<(String, Searcher)>)) -> (Seq<char>, Seq<(Seq<char>, Seq<Token>)>) {
    (g.0@, g.1@.map_values(|e: (String, Searcher)| (e.0@, e.1@)))
}

pub open spec fn symbol_group_view(g: (String, Vec<(String, String)>)) -> (Seq<char>, Seq<(Seq<char>, Seq<char>)>) {
    (g.0@, g.1@.map_values(|e: (String, String)| (e.0@, e.1@)))
}

impl View for SearchPlan {
    type V = PlanView;

    closed spec fn view(&self) -> PlanView {
        PlanView {
            patterns: self.patterns@.map_values(|g: (String, Vec<(String, Searcher)>)| pattern_group_view(g)),
            symbols: self.symbols@.map_values(|g: (String, Vec<(String, String)>)| symbol_group_view(g)),
        }
    }
}

/// The plan of searches `0..n`, `None` where a pattern is invalid; searches
/// of another method than "pattern" or "symbol" are ignored.
pub open spec fn spec_plan(searches: Seq<SearchView>, n: nat) -> Option<PlanView>
    decreases n,
{
    if n == 0 {
        Some(PlanView { patterns: Seq::empty(), symbols: Seq::empty() })
    } else {
        match spec_plan(searches, (n - 1) as nat) {
            Some(p) => {
                let (method, module, key, value) = searches[n - 1];
                if method == seq!['p', 'a', 't', 't', 'e', 'r', 'n'] {
                    match spec_pattern(value) {
                        Some(ts) => Some(PlanView { patterns: group_insert(p.patterns, module, key, ts), ..p }),
                        None => None,
                    }
                } else if method == seq!['s', 'y', 'm', 'b', 'o', 'l'] {
                    Some(PlanView { symbols: group_insert(p.symbols, module, value, key), ..p })
                } else {
                    Some(p)
                }
            },
            None => None,
        }
    }
}

proof fn lemma_plan_none(searches: Seq<SearchView>, k: nat, n: nat)
    requires
        k <= n,
        spec_plan(searches, k) is None,
    ensures
        spec_plan(searches, n) is None,
    decreases n - k,
{
    if k < n {
        lemma_plan_none(searches, k, (n - 1) as nat);
    }
}

pub open spec fn searches_view(searches: Seq<MemorySearch>) -> Seq<SearchView> {
    searches.map_values(|s: MemorySearch| (s.0@, s.1@, s.2@, s.3@))
}

/// The searches of a map of pattern searches by module, each group a map of
/// searchers by key, in the maps' order.
pub uninterp spec fn pattern_map_entries(m: IndexMap<String, IndexMap<String, Searcher>>) -> PatternGroups;

/// The searches of a map of symbol searches by module, each group a map of
/// keys by symbol, in the maps' order.
pub uninterp spec fn symbol_map_entries(m: IndexMap<String, IndexMap<String, String>>) -> SymbolGroups;

/// `IndexMap::new`: a map without entries.
#[verifier::external_body]
fn pattern_map_new() -> (m: IndexMap<String, IndexMap<String, Searcher>>)
    ensures
        pattern_map_entries(m) == Seq::<(Seq<char>, Seq<(Seq<char>, Seq<Token>)>)>::empty(),
{
    IndexMap::new()
}

/// `IndexMap::entry(module).or_insert_with(IndexMap::new).insert(key, ..)`:
/// the group of a module already there keeps its place, a new one goes
/// last; in the group an existing key keeps its place and takes the new
/// searcher, a new key goes last.
#[verifier::external_body]
fn pattern_map_add(m: &mut IndexMap<String, IndexMap<String, Searcher>>, module: String, key: String, searcher: Searcher)
    ensures
        pattern_map_entries(*final(m)) == group_insert(pattern_map_entries(*old(m)), module@, key@, searcher@),
{
    m.entry(module).or_insert_with(IndexMap::new).insert(key, searcher);
}

/// `IndexMap::into_iter` on the map and each group: the groups and their
/// entries, in the maps' order.
#[verifier::external_body]
fn pattern_map_into_groups(m: IndexMap<String, IndexMap<String, Searcher>>) -> (v: Vec<(String, Vec<(String, Searcher)>)>)
    ensures
        v@.map_values(|g: (String, Vec<(String, Searcher)>)| pattern_group_view(g)) == pattern_map_entries(m),
{
    m.into_iter().map(|(module, group)| (module, group.into_iter().collect())).collect()
}

/// `IndexMap::new`: a map without entries.
#[verifier::external_body]
fn symbol_map_new() -> (m: IndexMap<String, IndexMap<String, String>>)
    ensures
        symbol_map_entries(m) == Seq::<(Seq<char>, Seq<(Seq<char>, Seq<char>)>)>::empty(),
{
    IndexMap::new()
}

/// `IndexMap::entry(module).or_insert_with(IndexMap::new).insert(symbol, ..)`:
/// the group of a module already there keeps its place, a new one goes
/// last; in the group an existing symbol keeps its place and takes the new
/// key, a new symbol goes last.
#[verifier::external_body]
fn symbol_map_add(m: &mut IndexMap<String, IndexMap<String, String>>, module: String, symbol: String, key: String)
    ensures
        symbol_map_entries(*final(m)) == group_insert(symbol_map_entries(*old(m)), module@, symbol@, key@),
{
    m.entry(module).or_insert_with(IndexMap::new).insert(symbol, key);
}

/// `IndexMap::into_iter` on the map and each group: the groups and their
/// entries, in the maps' order.
#[verifier::external_body]
fn symbol_map_into_groups(m: IndexMap<String, IndexMap<String, String>>) -> (v: Vec<(String, Vec<(String, String)>)>)
    ensures
        v@.map_values(|g: (String, Vec<(String, String)>)| symbol_group_view(g)) == symbol_map_entries(m),
{
    m.into_iter().map(|(module, group)| (module, group.into_iter().collect())).collect()
}

/// The entries of a map of strings by string, in the map's order.
pub uninterp spec fn string_map_entries(m: IndexMap<String, String>) -> Seq<(Seq<char>, Seq<char>)>;

/// `IndexMap::new`: a map without entries.
#[verifier::external_body]
fn string_map_new() -> (m: IndexMap<String, String>)
    ensures
        string_map_entries(m) == Seq::<(Seq<char>, Seq<char>)>::empty(),
{
    IndexMap::new()
}

/// `IndexMap::insert`: an existing key keeps its place and takes the new
/// value, a new key's entry goes last.
#[verifier::external_body]
fn string_map_insert(m: &mut IndexMap<String, String>, key: String, value: String)
    ensures
        string_map_entries(*final(m)) == assoc_insert(string_map_entries(*old(m)), key@, value@),
{
    m.insert(key, value);
}

/// `IndexMap::into_iter`: the entries, in the map's order.
#[verifier::external_body]
fn string_map_into_pairs(m: IndexMap<String, String>) -> (v: Vec<(String, String)>)
    ensures
        v@.map_values(|e: (String, String)| (e.0@, e.1@)) == string_map_entries(m),
{
    m.into_iter().collect()
}

/// `IndexMap::iter`: the entries, in the map's order.
#[verifier::external_body]
pub(crate) fn string_map_pairs(m: &IndexMap<String, String>) -> (v: Vec<(String, String)>)
    ensures
        v@.map_values(|e: (String, String)| (e.0@, e.1@)) == string_map_entries(*m),
{
    m.iter().map(|(k, v)| (k.clone(), v.clone())).collect()
}

/// Group the searches by method and module; `InvalidPattern` where a pattern
/// is invalid.
pub fn plan_searches(searches: &Vec<MemorySearch>) -> (r: Result<SearchPlan, MemoryError>)
    ensures
        match spec_plan(searches_view(searches@), searches@.len()) {
            Some(p) => r matches Ok(plan) && plan@ == p,
            None => r matches Err(e) && e == MemoryError::InvalidPattern,
        },
{
    let ghost sv = searches_view(searches@);
    let mut patterns = pattern_map_new();
    let mut symbols = symbol_map_new();
    proof {
        reveal_strlit("pattern");
        reveal_strlit("symbol");
    }
    let mut n: usize = 0;
    while n < searches.len()
        invariant
            n <= searches@.len(),
            sv == searches_view(searches@),
            spec_plan(sv, n as nat) == Some(
                PlanView { patterns: pattern_map_entries(patterns), symbols: symbol_map_entries(symbols) },
            ),
            "pattern"@ == seq!['p', 'a', 't', 't', 'e', 'r', 'n'],
            "symbol"@ == seq!['s', 'y', 'm', 'b', 'o', 'l'],
        decreases searches@.len() - n,
    {
        let s = &searches[n];
        proof {
            assert(sv[n as int] == (s.0@, s.1@, s.2@, s.3@));
        }
        if strings_equal(&s.0, "pattern") {
            match Searcher::new(s.3.as_str()) {
                Ok(searcher) => {
                    pattern_map_add(&mut patterns, s.1.clone(), s.2.clone(), searcher);
                },
                Err(e) => {
                    proof {
                        lemma_plan_none(sv, (n + 1) as nat, searches@.len());
                    }
                    return Err(e);
                },
            }
        } else if strings_equal(&s.0, "symbol") {
            symbol_map_add(&mut symbols, s.1.clone(), s.3.clone(), s.2.clone());
        }
        n += 1;
    }
    Ok(SearchPlan { patterns: pattern_map_into_groups(patterns), symbols: symbol_map_into_groups(symbols) })
}

fn strings_equal(a: &String, b: &str) -> (eq: bool)
    ensures
        eq == (a@ == b@),
{
    let b2 = b.to_owned();
    *a == b2
}


/// The index of the last `c` in `s`.
pub open spec fn last_index_of(s: Seq<char>, c: char) -> Option<int>
    decreases s.len(),
{
    if s.len() == 0 {
        None
    } else if s.last() == c {
        Some(s.len() - 1)
    } else {
        last_index_of(s.drop_last(), c)
    }
}

proof fn lemma_last_index_of(s: Seq<char>, c: char)
    ensures
        match last_index_of(s, c) {
            Some(i) => 0 <= i < s.len() && s[i] == c && forall|j: int| i < j < s.len() ==> s[j] != c,
            None => forall|j: int| 0 <= j < s.len() ==> s[j] != c,
        },
    decreases s.len(),
{
    if s.len() > 0 {
        lemma_last_index_of(s.drop_last(), c);
        assert forall|j: int| 0 <= j < s.len() - 1 implies s.drop_last()[j] == s[j] by {}
    }
}

/// The module a path names: what follows its last separator.
pub open spec fn module_of(path: Seq<char>, separator: char) -> Option<Seq<char>> {
    match last_index_of(path, separator) {
        Some(i) => Some(path.skip(i + 1)),
        None => None,
    }
}

/// The path of each module of regions `0..n`, by module; `None` where a
/// path has no separator.
pub open spec fn spec_module_paths(regions: Seq<RegionView>, separator: char, n: nat) -> Option<Seq<(Seq<char>, Seq<char>)>>
    decreases n,
{
    if n == 0 {
        Some(Seq::empty())
    } else {
        match spec_module_paths(regions, separator, (n - 1) as nat) {
            Some(m) => match module_of(regions[n - 1].0, separator) {
                Some(module) => Some(assoc_insert(m, module, regions[n - 1].0)),
                None => None,
            },
            None => None,
        }
    }
}

proof fn lemma_module_paths_none(regions: Seq<RegionView>, separator: char, k: nat, n: nat)
    requires
        k <= n,
        spec_module_paths(regions, separator, k) is None,
    ensures
        spec_module_paths(regions, separator, n) is None,
    decreases n - k,
{
    if k < n {
        lemma_module_paths_none(regions, separator, k, (n - 1) as nat);
    }
}

/// The module each region belongs to, by module, with its path;
/// `InvalidModulePath` where a path has no `separator`.
pub fn module_paths(regions: &MemoryRegions, separator: char) -> (r: Result<Vec<(String, String)>, MemoryError>)
    ensures
        match spec_module_paths(regions@, separator, regions@.len()) {
            Some(m) => r matches Ok(v) && v@.map_values(|e: (String, String)| (e.0@, e.1@)) == m,
            None => r matches Err(e) && e == MemoryError::InvalidModulePath,
        },
{
    let mut map = string_map_new();
    let mut n: usize = 0;
    while n < regions.regions.len()
        invariant
            n <= regions@.len(),
            spec_module_paths(regions@, separator, n as nat) == Some(string_map_entries(map)),
        decreases regions@.len() - n,
    {
        let path = &regions.regions[n];
        proof {
            assert(regions@[n as int] == (path.0@, path.1, path.2, path.3));
        }
        let chars = crate::strings::string_to_chars(path.0.as_str());
        let mut i: usize = chars.len();
        let mut found = false;
        while i > 0 && !found
            invariant
                i <= chars@.len(),
                found ==> i < chars@.len() && chars@[i as int] == separator,
                forall|j: int| (if found { i + 1 } else { i as int }) <= j < chars@.len() ==> chars@[j] != separator,
            decreases i + (if found {
                0int
            } else {
                1int
            }),
        {
            if chars[i - 1] == separator {
                found = true;
                i = i - 1;
            } else {
                i = i - 1;
            }
        }
        proof {
            lemma_last_index_of(chars@, separator);
        }
        if !found {
            proof {
                assert(module_of(chars@, separator) is None);
                lemma_module_paths_none(regions@, separator, (n + 1) as nat, regions@.len());
            }
            return Err(MemoryError::InvalidModulePath);
        }
        let mut module_chars: Vec<char> = Vec::new();
        let mut k: usize = i + 1;
        while k < chars.len()
            invariant
                i + 1 <= k <= chars@.len(),
                module_chars@ == chars@.subrange(i + 1, k as int),
            decreases chars@.len() - k,
        {
            module_chars.push(chars[k]);
            k += 1;
            proof {
                assert(module_chars@ =~= chars@.subrange(i + 1, k as int));
            }
        }
        let module = crate::strings::chars_to_string(&module_chars);
        proof {
            assert(last_index_of(chars@, separator) == Some(i as int));
            assert(module@ =~= chars@.skip(i + 1));
        }
        string_map_insert(&mut map, module, path.0.clone());
        n += 1;
    }
    Ok(string_map_into_pairs(map))
}

/// `s` ends with `suffix`.
pub open spec fn ends_with(s: Seq<char>, suffix: Seq<char>) -> bool {
    suffix.len() <= s.len() && s.skip(s.len() - suffix.len()) == suffix
}

pub(crate) fn str_ends_with(s: &String, suffix: &String) -> (b: bool)
    ensures
        b == ends_with(s@, suffix@),
{
    let a = crate::strings::string_to_chars(s.as_str());
    let b = crate::strings::string_to_chars(suffix.as_str());
    if b.len() > a.len() {
        return false;
    }
    let off = a.len() - b.len();
    let mut k: usize = 0;
    while k < b.len()
        invariant
            a@.len() >= b@.len(),
            a@ == s@,
            b@ == suffix@,
            off == a@.len() - b@.len(),
            k <= b@.len(),
            forall|j: int| 0 <= j < k ==> a@[off + j] == b@[j],
        decreases b@.len() - k,
    {
        assert(off + k < a.len());
        if a[off + k] != b[k] {
            proof {
                assert(a@.skip(off as int)[k as int] == a@[off + k]);
                assert(a@.skip(off as int) != b@);
            }
            return false;
        }
        k += 1;
    }
    proof {
        assert(a@.skip(off as int) =~= b@);
    }
    true
}

pub type PointerEntries = Seq<(Seq<char>, PointerView)>;

/// The pointers found by the searches of `group` in one region: a key found
/// exactly once is recorded at the address of its match.
pub open spec fn search_keys(group: Seq<(Seq<char>, Seq<Token>)>, r: RegionView, data: Seq<u8>, ptrs: PointerEntries, n: nat) -> PointerEntries
    decreases n,
{
    if n == 0 {
        ptrs
    } else {
        let p = search_keys(group, r, data, ptrs, (n - 1) as nat);
        let (key, tokens) = group[n - 1];
        let offsets = match_offsets(tokens, data, window_count(tokens, data));
        if offsets.len() == 1 {
            let address = r.2 + offsets[0];
            assoc_insert(p, key, ((r.0, (address - r.1) as usize), address as usize))
        } else {
            p
        }
    }
}

/// The searches of a module's group in the regions `0..n` of that module.
pub open spec fn search_regions(module: Seq<char>, group: Seq<(Seq<char>, Seq<Token>)>, regions: Seq<RegionView>, datas: Seq<Seq<u8>>, ptrs: PointerEntries, n: nat) -> PointerEntries
    decreases n,
{
    if n == 0 {
        ptrs
    } else {
        let p = search_regions(module, group, regions, datas, ptrs, (n - 1) as nat);
        if ends_with(regions[n - 1].0, module) {
            search_keys(group, regions[n - 1], datas[n - 1], p, group.len())
        } else {
            p
        }
    }
}

/// The pattern searches of the groups `0..n`.
pub open spec fn search_groups(patterns: PatternGroups, regions: Seq<RegionView>, datas: Seq<Seq<u8>>, ptrs: PointerEntries, n: nat) -> PointerEntries
    decreases n,
{
    if n == 0 {
        ptrs
    } else {
        search_regions(
            patterns[n - 1].0,
            patterns[n - 1].1,
            regions,
            datas,
            search_groups(patterns, regions, datas, ptrs, (n - 1) as nat),
            regions.len(),
        )
    }
}

/// The only match of a pattern in a region's bytes, where it has exactly one.
pub open spec fn found_once(tokens: Seq<Token>, data: Seq<u8>) -> Option<usize> {
    let offsets = match_offsets(tokens, data, window_count(tokens, data));
    if offsets.len() == 1 {
        Some(offsets[0])
    } else {
        None
    }
}

/// Every key of a group found exactly once in a region is found at or after
/// the region's module base.
pub open spec fn found_after_base(group: Seq<(Seq<char>, Seq<Token>)>, r: RegionView, data: Seq<u8>) -> bool {
    forall|k: int|
        0 <= k < group.len() ==> match found_once((#[trigger] group[k]).1, data) {
            Some(q) => r.1 <= r.2 + q,
            None => true,
        }
}

/// The regions a pattern search reads hold their memory's bytes, and what
/// is found in them lies at or after their module's base.
pub open spec fn searched_regions_ok(patterns: PatternGroups, regions: Seq<RegionView>, datas: Seq<Seq<u8>>) -> bool {
    &&& datas.len() == regions.len()
    &&& forall|g: int, j: int|
        0 <= g < patterns.len() && 0 <= j < regions.len() && ends_with(#[trigger] regions[j].0, #[trigger] patterns[g].0)
            ==> regions[j].2 <= regions[j].3 && datas[j].len() == regions[j].3 - regions[j].2 && found_after_base(
            patterns[g].1,
            regions[j],
            datas[j],
        )
}

proof fn lemma_match_offsets_bound(tokens: Seq<Token>, data: Seq<u8>, n: nat)
    requires
        n <= usize::MAX,
    ensures
        forall|q: int| 0 <= q < match_offsets(tokens, data, n).len() ==> match_offsets(tokens, data, n)[q] < n,
    decreases n,
{
    if n > 0 {
        lemma_match_offsets_bound(tokens, data, (n - 1) as nat);
        let p = match_offsets(tokens, data, (n - 1) as nat);
        if matches_at(tokens, data, n - 1) {
            assert(match_offsets(tokens, data, n) == p.push((n - 1) as usize));
            assert forall|q: int| 0 <= q < p.len() + 1 implies #[trigger] p.push((n - 1) as usize)[q] < n by {
                if q < p.len() {
                    assert(p.push((n - 1) as usize)[q] == p[q]);
                }
            }
        }
    }
}

fn search_region_keys(group: &Vec<(String, Searcher)>, region: &MemoryRegion, data: &Vec<u8>, pointers: &mut Pointers)
    requires
        region.2 <= region.3,
        data@.len() == region.3 - region.2,
        found_after_base(
            group@.map_values(|e: (String, Searcher)| (e.0@, e.1@)),
            (region.0@, region.1, region.2, region.3),
            data@,
        ),
    ensures
        keys_unique(final(pointers)@),
        final(pointers)@ == search_keys(
            group@.map_values(|e: (String, Searcher)| (e.0@, e.1@)),
            (region.0@, region.1, region.2, region.3),
            data@,
            old(pointers)@,
            group@.len(),
        ),
{
    proof {
        use_type_invariant(&*pointers);
    }
    let ghost gv = group@.map_values(|e: (String, Searcher)| (e.0@, e.1@));
    let ghost rv = (region.0@, region.1, region.2, region.3);
    let mut k: usize = 0;
    while k < group.len()
        invariant
            k <= group@.len(),
            gv == group@.map_values(|e: (String, Searcher)| (e.0@, e.1@)),
            rv == (region.0@, region.1, region.2, region.3),
            region.2 <= region.3,
            data@.len() == region.3 - region.2,
            found_after_base(gv, rv, data@),
            keys_unique(pointers@),
            pointers@ == search_keys(gv, rv, data@, old(pointers)@, k as nat),
        decreases group@.len() - k,
    {
        let entry = &group[k];
        proof {
            assert(gv[k as int] == (entry.0@, entry.1@));
        }
        let found = entry.1.matches(data.as_slice());
        if found.len() == 1 {
            proof {
                use_type_invariant(&entry.1);
                lemma_match_offsets_bound(entry.1@, data@, window_count(entry.1@, data@));
                assert(found_once(gv[k as int].1, data@) == Some(found@[0]));
            }
            let address = region.2 + found[0];
            let value = ((region.0.clone(), address - region.1), address);
            pointers.insert(entry.0.clone(), value);
        }
        k += 1;
    }
}

/// Run the pattern searches of `plan` over the regions of their modules,
/// whose bytes `datas` holds, recording each key found exactly once.
pub fn search_patterns(plan: &SearchPlan, regions: &MemoryRegions, datas: &Vec<Vec<u8>>, pointers: &mut Pointers)
    requires
        searched_regions_ok(plan@.patterns, regions@, datas@.map_values(|d: Vec<u8>| d@)),
    ensures
        keys_unique(final(pointers)@),
        final(pointers)@ == search_groups(
            plan@.patterns,
            regions@,
            datas@.map_values(|d: Vec<u8>| d@),
            old(pointers)@,
            plan@.patterns.len(),
        ),
{
    proof {
        use_type_invariant(&*pointers);
    }
    let ghost dv = datas@.map_values(|d: Vec<u8>| d@);
    let mut g: usize = 0;
    while g < plan.patterns.len()
        invariant
            g <= plan@.patterns.len(),
            dv == datas@.map_values(|d: Vec<u8>| d@),
            searched_regions_ok(plan@.patterns, regions@, dv),
            keys_unique(pointers@),
            pointers@ == search_groups(plan@.patterns, regions@, dv, old(pointers)@, g as nat),
        decreases plan@.patterns.len() - g,
    {
        let module = &plan.patterns[g].0;
        let group = &plan.patterns[g].1;
        proof {
            assert(plan@.patterns[g as int] == pattern_group_view(plan.patterns@[g as int]));
        }
        let ghost before = pointers@;
        let mut j: usize = 0;
        while j < regions.regions.len()
            invariant
                g < plan@.patterns.len(),
                j <= regions@.len(),
                module@ == plan@.patterns[g as int].0,
                group@.map_values(|e: (String, Searcher)| (e.0@, e.1@)) == plan@.patterns[g as int].1,
                dv == datas@.map_values(|d: Vec<u8>| d@),
                searched_regions_ok(plan@.patterns, regions@, dv),
                keys_unique(pointers@),
                pointers@ == search_regions(
                    plan@.patterns[g as int].0,
                    plan@.patterns[g as int].1,
                    regions@,
                    dv,
                    before,
                    j as nat,
                ),
            decreases regions@.len() - j,
        {
            let region = &regions.regions[j];
            proof {
                assert(regions@[j as int] == (region.0@, region.1, region.2, region.3));
            }
            if str_ends_with(&region.0, module) {
                proof {
                    assert(ends_with(regions@[j as int].0, plan@.patterns[g as int].0));
                    assert(dv[j as int] == datas@[j as int]@);
                }
                search_region_keys(group, region, &datas[j], pointers);
            }
            j += 1;
        }
        g += 1;
    }
}

/// The pointers of the symbols of a module, whose addresses `addresses`
/// holds; the first symbol not found, or found outside every region, is the
/// error.
pub open spec fn resolve_group(group: Seq<(Seq<char>, Seq<char>)>, addresses: Seq<Option<usize>>, regions: Seq<RegionView>, ptrs: PointerEntries, n: nat) -> Result<PointerEntries, MemoryError>
    decreases n,
{
    if n == 0 {
        Ok(ptrs)
    } else {
        match resolve_group(group, addresses, regions, ptrs, (n - 1) as nat) {
            Ok(p) => match addresses[n - 1] {
                Some(a) => match region_for(regions, a, 0) {
                    Some(i) => Ok(assoc_insert(p, group[n - 1].1, ((regions[i].0, (a - regions[i].1) as usize), a))),
                    None => Err(MemoryError::NoFileOffset),
                },
                None => Err(MemoryError::SymbolNotFound),
            },
            Err(e) => Err(e),
        }
    }
}

/// The symbol searches of the groups `0..n`: a module with no region is an
/// error, and so is one that could not be loaded (`None`).
pub open spec fn spec_resolve(symbols: SymbolGroups, module_map: Seq<(Seq<char>, Seq<char>)>, regions: Seq<RegionView>, loaded: Seq<Option<Seq<Option<usize>>>>, ptrs: PointerEntries, n: nat) -> Result<PointerEntries, MemoryError>
    decreases n,
{
    if n == 0 {
        Ok(ptrs)
    } else {
        match spec_resolve(symbols, module_map, regions, loaded, ptrs, (n - 1) as nat) {
            Ok(p) => if key_index(module_map, symbols[n - 1].0) is None {
                Err(MemoryError::NoModulePath)
            } else {
                match loaded[n - 1] {
                    Some(addresses) => resolve_group(symbols[n - 1].1, addresses, regions, p, symbols[n - 1].1.len()),
                    None => Err(MemoryError::ModuleLoadFailed),
                }
            },
            Err(e) => Err(e),
        }
    }
}

/// What the loader found for each symbol module: `None` where it could not
/// load the module, else the address of each of its symbols, `None` where a
/// symbol is missing. Each address that a region holds is at or after that
/// region's module base.
pub open spec fn loaded_ok(symbols: SymbolGroups, regions: Seq<RegionView>, loaded: Seq<Option<Seq<Option<usize>>>>) -> bool {
    &&& loaded.len() == symbols.len()
    &&& forall|j: int|
        0 <= j < loaded.len() ==> match #[trigger] loaded[j] {
            Some(addresses) => addresses.len() == symbols[j].1.len() && addresses_ok(regions, addresses),
            None => true,
        }
}

/// Each address a region holds is at or after that region's module base.
pub open spec fn addresses_ok(regions: Seq<RegionView>, addresses: Seq<Option<usize>>) -> bool {
    forall|k: int|
        0 <= k < addresses.len() ==> match #[trigger] addresses[k] {
            Some(a) => match region_for(regions, a, 0) {
                Some(i) => regions[i].1 <= a,
                None => true,
            },
            None => true,
        }
}

pub open spec fn loaded_view(loaded: Seq<Option<Vec<Option<usize>>>>) -> Seq<Option<Seq<Option<usize>>>> {
    loaded.map_values(|l: Option<Vec<Option<usize>>>| match l {
        Some(v) => Some(v@),
        None => None,
    })
}

proof fn lemma_resolve_group_err(group: Seq<(Seq<char>, Seq<char>)>, addresses: Seq<Option<usize>>, regions: Seq<RegionView>, ptrs: PointerEntries, k: nat, n: nat)
    requires
        k <= n,
        resolve_group(group, addresses, regions, ptrs, k) is Err,
    ensures
        resolve_group(group, addresses, regions, ptrs, n) == resolve_group(group, addresses, regions, ptrs, k),
    decreases n - k,
{
    if k < n {
        lemma_resolve_group_err(group, addresses, regions, ptrs, k, (n - 1) as nat);
    }
}

proof fn lemma_resolve_err(symbols: SymbolGroups, module_map: Seq<(Seq<char>, Seq<char>)>, regions: Seq<RegionView>, loaded: Seq<Option<Seq<Option<usize>>>>, ptrs: PointerEntries, k: nat, n: nat)
    requires
        k <= n,
        spec_resolve(symbols, module_map, regions, loaded, ptrs, k) is Err,
    ensures
        spec_resolve(symbols, module_map, regions, loaded, ptrs, n) == spec_resolve(symbols, module_map, regions, loaded, ptrs, k),
    decreases n - k,
{
    if k < n {
        lemma_resolve_err(symbols, module_map, regions, loaded, ptrs, k, (n - 1) as nat);
    }
}


fn resolve_symbol_group(group: &Vec<(String, String)>, addresses: &Vec<Option<usize>>, regions: &MemoryRegions, pointers: &mut Pointers) -> (r: Result<(), MemoryError>)
    requires
        addresses@.len() == group@.len(),
        addresses_ok(regions@, addresses@),
    ensures
        match resolve_group(
            group@.map_values(|e: (String, String)| (e.0@, e.1@)),
            addresses@,
            regions@,
            old(pointers)@,
            group@.len(),
        ) {
            Ok(p) => r is Ok && final(pointers)@ == p && keys_unique(p),
            Err(e) => r == Err::<(), MemoryError>(e),
        },
{
    proof {
        use_type_invariant(&*pointers);
    }
    let ghost gv = group@.map_values(|e: (String, String)| (e.0@, e.1@));
    let mut k: usize = 0;
    while k < group.len()
        invariant
            k <= group@.len(),
            gv == group@.map_values(|e: (String, String)| (e.0@, e.1@)),
            addresses@.len() == group@.len(),
            addresses_ok(regions@, addresses@),
            keys_unique(pointers@),
            resolve_group(gv, addresses@, regions@, old(pointers)@, k as nat) == Ok::<PointerEntries, MemoryError>(
                pointers@,
            ),
        decreases group@.len() - k,
    {
        proof {
            assert(gv[k as int] == (group@[k as int].0@, group@[k as int].1@));
        }
        match addresses[k] {
            None => {
                proof {
                    lemma_resolve_group_err(gv, addresses@, regions@, old(pointers)@, (k + 1) as nat, group@.len());
                }
                return Err(MemoryError::SymbolNotFound);
            },
            Some(a) => {
                proof {
                    lemma_region_for(regions@, a, 0);
                    assert(match addresses@[k as int] {
                        Some(a) => match region_for(regions@, a, 0) {
                            Some(i) => regions@[i].1 <= a,
                            None => true,
                        },
                        None => true,
                    });
                }
                match regions.get_file_offset_by_memory_address(a) {
                    None => {
                        proof {
                            lemma_resolve_group_err(gv, addresses@, regions@, old(pointers)@, (k + 1) as nat, group@.len());
                        }
                        return Err(MemoryError::NoFileOffset);
                    },
                    Some(offset) => {
                        pointers.insert(group[k].1.clone(), (offset, a));
                    },
                }
            },
        }
        k += 1;
    }
    Ok(())
}

/// Resolve the symbol searches of `plan`: `module_map` gives each module's
/// path and `loaded` what the loader found in each symbol module, in the
/// plan's order.
pub fn resolve_symbols(plan: &SearchPlan, module_map: &Vec<(String, String)>, regions: &MemoryRegions, loaded: &Vec<Option<Vec<Option<usize>>>>, pointers: &mut Pointers) -> (r: Result<(), MemoryError>)
    requires
        loaded_ok(plan@.symbols, regions@, loaded_view(loaded@)),
    ensures
        match spec_resolve(
            plan@.symbols,
            module_map@.map_values(|e: (String, String)| (e.0@, e.1@)),
            regions@,
            loaded_view(loaded@),
            old(pointers)@,
            plan@.symbols.len(),
        ) {
            Ok(p) => r is Ok && final(pointers)@ == p && keys_unique(p),
            Err(e) => r == Err::<(), MemoryError>(e),
        },
{
    proof {
        use_type_invariant(&*pointers);
    }
    let ghost mm = module_map@.map_values(|e: (String, String)| (e.0@, e.1@));
    let ghost lv = loaded_view(loaded@);
    let mut j: usize = 0;
    while j < plan.symbols.len()
        invariant
            j <= plan@.symbols.len(),
            mm == module_map@.map_values(|e: (String, String)| (e.0@, e.1@)),
            lv == loaded_view(loaded@),
            loaded_ok(plan@.symbols, regions@, lv),
            keys_unique(pointers@),
            spec_resolve(plan@.symbols, mm, regions@, lv, old(pointers)@, j as nat) == Ok::<PointerEntries, MemoryError>(
                pointers@,
            ),
        decreases plan@.symbols.len() - j,
    {
        let module = &plan.symbols[j].0;
        let group = &plan.symbols[j].1;
        proof {
            assert(plan@.symbols[j as int] == symbol_group_view(plan.symbols@[j as int]));
        }
        match find_key(module_map, module) {
            None => {
                proof {
                    lemma_key_index_none(mm, module@);
                    lemma_resolve_err(plan@.symbols, mm, regions@, lv, old(pointers)@, (j + 1) as nat, plan@.symbols.len());
                }
                return Err(MemoryError::NoModulePath);
            },
            Some(i) => {
                proof {
                    lemma_key_index_at(mm, module@, i as int);
                }
            },
        }
        match &loaded[j] {
            None => {
                proof {
                    assert(lv[j as int] is None);
                    lemma_resolve_err(plan@.symbols, mm, regions@, lv, old(pointers)@, (j + 1) as nat, plan@.symbols.len());
                }
                return Err(MemoryError::ModuleLoadFailed);
            },
            Some(addresses) => {
                proof {
                    assert(lv[j as int] == Some(addresses@));
                }
                let r = resolve_symbol_group(group, addresses, regions, pointers);
                match r {
                    Err(e) => {
                        proof {
                            lemma_resolve_err(plan@.symbols, mm, regions@, lv, old(pointers)@, (j + 1) as nat, plan@.symbols.len());
                        }
                        return Err(e);
                    },
                    Ok(()) => {},
                }
            },
        }
        j += 1;
    }
    Ok(())
}

/// Run the searches of `plan`: the pattern searches over the bytes of the
/// regions, then the symbol searches with what the loader found.
pub fn run_searches(plan: &SearchPlan, module_map: &Vec<(String, String)>, regions: &MemoryRegions, datas: &Vec<Vec<u8>>, loaded: &Vec<Option<Vec<Option<usize>>>>) -> (r: Result<Pointers, MemoryError>)
    requires
        searched_regions_ok(plan@.patterns, regions@, datas@.map_values(|d: Vec<u8>| d@)),
        loaded_ok(plan@.symbols, regions@, loaded_view(loaded@)),
    ensures
        match spec_resolve(
            plan@.symbols,
            module_map@.map_values(|e: (String, String)| (e.0@, e.1@)),
            regions@,
            loaded_view(loaded@),
            search_groups(
                plan@.patterns,
                regions@,
                datas@.map_values(|d: Vec<u8>| d@),
                Seq::empty(),
                plan@.patterns.len(),
            ),
            plan@.symbols.len(),
        ) {
            Ok(p) => r matches Ok(pointers) && pointers@ == p && keys_unique(p),
            Err(e) => r matches Err(e2) && e2 == e,
        },
{
    let mut pointers = Pointers::new();
    search_patterns(plan, regions, datas, &mut pointers);
    match resolve_symbols(plan, module_map, regions, loaded, &mut pointers) {
        Ok(()) => Ok(pointers),
        Err(e) => Err(e),
    }
}

} // verus!
