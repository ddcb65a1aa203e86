//! The dynamic symbols of an ELF file, and the file offsets of the functions
//! the mod hooks.

use indexmap::IndexMap;
use vstd::prelude::*;

use crate::memory::{string_map_entries, string_map_pairs};

use crate::assoc::{
    assoc_insert, find_key, key_index, key_value, lemma_key_index, lemma_key_value_insert, keys_unique, lemma_assoc_insert_unique, lemma_key_index_at,
    lemma_key_index_none, vec_assoc_insert,
};

verus! {

/// The dynamic symbols of ELF data, in the symbol table's order: each
/// symbol's name in the dynamic string table (`None` where the table has no
/// string at its offset) and its value; `None` where the data is no ELF
/// file.
pub uninterp spec fn elf_dynamic_symbols(data: Seq<u8>) -> Option<Seq<(Option<Seq<char>>, u64)>>;

pub open spec fn symbols_view(v: Seq<(Option<String>, u64)>) -> Seq<(Option<Seq<char>>, u64)> {
    v.map_values(|e: (Option<String>, u64)| (
        match e.0 {
            Some(s) => Some(s@),
            None => None,
        },
        e.1,
    ))
}

/// `goblin::elf::Elf::parse`, then each of its dynamic symbols with its name
/// from the dynamic string table (`Strtab::get_at`) and its value.
#[verifier::external_body]
fn parse_dynamic_symbols(data: &[u8]) -> (r: Option<Vec<(Option<String>, u64)>>)
    ensures
        match r {
            Some(v) => elf_dynamic_symbols(data@) == Some(symbols_view(v@)),
            None => elf_dynamic_symbols(data@) is None,
        },
{
    match goblin::elf::Elf::parse(data) {
        Ok(elf) => Some(
            elf.dynsyms.iter().map(|s| (elf.dynstrtab.get_at(s.st_name).map(|n| n.to_owned()), s.st_value)).collect(),
        ),
        Err(_) => None,
    }
}

/// Why an ELF file could not give what was asked.
#[derive(Debug)]
pub enum ElfError {
    /// The data is no ELF file.
    Parse,
    /// A symbol is not among the file's dynamic symbols.
    SymbolNotFound(String),
}

/// The offsets of the named symbols `0..n`, a later value of a name
/// replacing an earlier one.
pub open spec fn symbol_offsets(syms: Seq<(Option<Seq<char>>, u64)>, n: nat) -> Seq<(Seq<char>, usize)>
    decreases n,
{
    if n == 0 {
        Seq::empty()
    } else {
        let t = symbol_offsets(syms, (n - 1) as nat);
        match syms[n - 1].0 {
            Some(name) => assoc_insert(t, name, syms[n - 1].1 as usize),
            None => t,
        }
    }
}

/// An ELF file's dynamic symbols and their offsets.
pub struct ElfFile {
    symbols: Vec<(String, usize)>,
}

impl View for ElfFile {
    type V = Seq<(Seq<char>, usize)>;

    closed spec fn view(&self) -> Seq<(Seq<char>, usize)> {
        self.symbols@.map_values(|e: (String, usize)| (e.0@, e.1))
    }
}

/// The offsets of the functions `0..n` of `wanted` (symbol, name): each under
/// its name; the first symbol the file lacks is the error.
pub open spec fn spec_function_offsets(symbols: Seq<(Seq<char>, usize)>, wanted: Seq<(Seq<char>, Seq<char>)>, n: nat) -> Result<Seq<(Seq<char>, usize)>, Seq<char>>
    decreases n,
{
    if n == 0 {
        Ok(Seq::empty())
    } else {
        match spec_function_offsets(symbols, wanted, (n - 1) as nat) {
            Ok(t) => match key_index(symbols, wanted[n - 1].0) {
                Some(i) => Ok(assoc_insert(t, wanted[n - 1].1, symbols[i].1)),
                None => Err(wanted[n - 1].0),
            },
            Err(e) => Err(e),
        }
    }
}

proof fn lemma_function_offsets_err(symbols: Seq<(Seq<char>, usize)>, wanted: Seq<(Seq<char>, Seq<char>)>, k: nat, n: nat)
    requires
        k <= n,
        spec_function_offsets(symbols, wanted, k) is Err,
    ensures
        spec_function_offsets(symbols, wanted, n) == spec_function_offsets(symbols, wanted, k),
    decreases n - k,
{
    if k < n {
        lemma_function_offsets_err(symbols, wanted, k, (n - 1) as nat);
    }
}

/// The offsets of the wanted pairs `0..n` are given exactly where the file has
/// every wanted symbol; otherwise the error is the first wanted symbol the
/// file lacks.
proof fn lemma_function_offsets_ok(symbols: Seq<(Seq<char>, usize)>, wanted: Seq<(Seq<char>, Seq<char>)>, n: nat)
    requires
        n <= wanted.len(),
    ensures
        spec_function_offsets(symbols, wanted, n) is Ok <==> (forall|k: int|
            0 <= k < n ==> key_index(symbols, (#[trigger] wanted[k]).0) is Some),
        spec_function_offsets(symbols, wanted, n) matches Err(e) ==> exists|k: int|
            0 <= k < n && key_index(symbols, (#[trigger] wanted[k]).0) is None && e == wanted[k].0 && forall|j: int|
                0 <= j < k ==> key_index(symbols, (#[trigger] wanted[j]).0) is Some,
    decreases n,
{
    if n > 0 {
        let m = (n - 1) as nat;
        lemma_function_offsets_ok(symbols, wanted, m);
        if spec_function_offsets(symbols, wanted, m) is Ok {
            if key_index(symbols, wanted[m as int].0) is Some {
                assert forall|k: int| 0 <= k < n implies key_index(symbols, (#[trigger] wanted[k]).0) is Some by {
                    if k < m {
                    }
                }
            }
        }
    }
}

/// Where the offsets of the wanted pairs `0..n` are given, each name has the
/// offset of the symbol of the last pair that names it, and no other name
/// has one.
proof fn lemma_function_offsets_names(symbols: Seq<(Seq<char>, usize)>, wanted: Seq<(Seq<char>, Seq<char>)>, n: nat)
    requires
        n <= wanted.len(),
    ensures
        spec_function_offsets(symbols, wanted, n) matches Ok(t) ==> {
            &&& forall|k: int|
                0 <= k < n && (forall|k2: int| k < k2 < n ==> wanted[k2].1 != wanted[k].1) ==> key_value(
                    t,
                    (#[trigger] wanted[k]).1,
                ) == key_value(symbols, wanted[k].0)
            &&& forall|name: Seq<char>|
                #[trigger] key_value(t, name) is Some ==> exists|k: int| 0 <= k < n && (#[trigger] wanted[k]).1 == name
        },
    decreases n,
{
    if n == 0 {
        let t = Seq::<(Seq<char>, usize)>::empty();
        assert forall|name: Seq<char>| #[trigger] key_value(t, name) is Some implies false by {
            lemma_key_index(t, name);
        }
    } else {
        let m = (n - 1) as nat;
        lemma_function_offsets_names(symbols, wanted, m);
        let last = wanted[m as int];
        if let Ok(t0) = spec_function_offsets(symbols, wanted, m) {
            if let Some(i) = key_index(symbols, last.0) {
                let t = assoc_insert(t0, last.1, symbols[i].1);
                assert(key_value(symbols, last.0) == Some(symbols[i].1));
                assert forall|k: int|
                    0 <= k < n && (forall|k2: int| k < k2 < n ==> wanted[k2].1 != wanted[k].1) implies key_value(
                    t,
                    (#[trigger] wanted[k]).1,
                ) == key_value(symbols, wanted[k].0) by {
                    lemma_key_value_insert(t0, last.1, symbols[i].1, wanted[k].1);
                    if k < m {
                        assert(wanted[m as int].1 != wanted[k].1);
                        assert forall|k2: int| k < k2 < m implies wanted[k2].1 != wanted[k].1 by {}
                    }
                }
                assert forall|name: Seq<char>| #[trigger] key_value(t, name) is Some implies exists|k: int|
                    0 <= k < n && (#[trigger] wanted[k]).1 == name by {
                    lemma_key_value_insert(t0, last.1, symbols[i].1, name);
                    if name == last.1 {
                        assert(wanted[m as int].1 == name);
                    } else {
                        assert(key_value(t0, name) is Some);
                        let k = choose|k: int| 0 <= k < m && (#[trigger] wanted[k]).1 == name;
                        assert(wanted[k].1 == name);
                    }
                }
            }
        }
    }
}

/// What the offsets of the wanted (symbol, name) pairs `0..n` are: they are
/// given exactly where the file has every wanted symbol; then each name has
/// the offset of the symbol of the last pair that names it, and no other
/// name has one. Otherwise the error is the first wanted symbol the file
/// lacks.
pub proof fn lemma_function_offsets_by_name(
    symbols: Seq<(Seq<char>, usize)>,
    wanted: Seq<(Seq<char>, Seq<char>)>,
    n: nat,
)
    requires
        n <= wanted.len(),
    ensures
        spec_function_offsets(symbols, wanted, n) is Ok <==> (forall|k: int|
            0 <= k < n ==> key_index(symbols, (#[trigger] wanted[k]).0) is Some),
        spec_function_offsets(symbols, wanted, n) matches Ok(t) ==> {
            &&& forall|k: int|
                0 <= k < n && (forall|k2: int| k < k2 < n ==> wanted[k2].1 != wanted[k].1) ==> key_value(
                    t,
                    (#[trigger] wanted[k]).1,
                ) == key_value(symbols, wanted[k].0)
            &&& forall|name: Seq<char>|
                #[trigger] key_value(t, name) is Some ==> exists|k: int| 0 <= k < n && (#[trigger] wanted[k]).1 == name
        },
        spec_function_offsets(symbols, wanted, n) matches Err(e) ==> exists|k: int|
            0 <= k < n && key_index(symbols, (#[trigger] wanted[k]).0) is None && e == wanted[k].0 && forall|j: int|
                0 <= j < k ==> key_index(symbols, (#[trigger] wanted[j]).0) is Some,
{
    lemma_function_offsets_ok(symbols, wanted, n);
    lemma_function_offsets_names(symbols, wanted, n);
}

impl ElfFile {
    /// Read the dynamic symbols of ELF data.
    pub fn new(data: &[u8]) -> (r: Result<ElfFile, ElfError>)
        ensures
            match elf_dynamic_symbols(data@) {
                Some(syms) => r matches Ok(f) && f@ == symbol_offsets(syms, syms.len()) && keys_unique(f@),
                None => r matches Err(e) && e == ElfError::Parse,
            },
    {
        match parse_dynamic_symbols(data) {
            None => Err(ElfError::Parse),
            Some(syms) => {
                let ghost sv = symbols_view(syms@);
                let mut symbols: Vec<(String, usize)> = Vec::new();
                let mut i: usize = 0;
                proof {
                    assert(symbols@.map_values(|e: (String, usize)| (e.0@, e.1)) =~= Seq::<(Seq<char>, usize)>::empty());
                }
                while i < syms.len()
                    invariant
                        i <= syms@.len(),
                        sv == symbols_view(syms@),
                        symbols@.map_values(|e: (String, usize)| (e.0@, e.1)) == symbol_offsets(sv, i as nat),
                        keys_unique(symbols@.map_values(|e: (String, usize)| (e.0@, e.1))),
                    decreases syms@.len() - i,
                {
                    proof {
                        assert(sv[i as int].1 == syms@[i as int].1);
                    }
                    match &syms[i].0 {
                        Some(name) => {
                            proof {
                                assert(sv[i as int].0 == Some(name@));
                            }
                            let ghost tv = symbols@.map_values(|e: (String, usize)| (e.0@, e.1));
                            let value = syms[i].1 as usize;
                            let r = vec_assoc_insert(&mut symbols, name.clone(), value);
                            proof {
                                match r {
                                    Some(j) => {
                                        lemma_key_index_at(tv, name@, j as int);
                                    },
                                    None => {
                                        lemma_key_index_none(tv, name@);
                                    },
                                }
                                assert(symbols@.map_values(|e: (String, usize)| (e.0@, e.1)) =~= assoc_insert(
                                    tv,
                                    name@,
                                    value,
                                ));
                                lemma_assoc_insert_unique(tv, name@, value);
                            }
                        },
                        None => {
                            proof {
                                assert(sv[i as int].0 is None);
                            }
                        },
                    }
                    i += 1;
                }
                Ok(ElfFile { symbols })
            },
        }
    }

    /// The offsets of the wanted functions, as (symbol, name) pairs, under
    /// their names; a symbol the file lacks is the error.
    pub fn function_offsets(&self, symbols_map: &IndexMap<String, String>) -> (r: Result<IndexMap<String, usize>, ElfError>)
        ensures
            match spec_function_offsets(self@, string_map_entries(*symbols_map), string_map_entries(*symbols_map).len()) {
                Ok(t) => r matches Ok(m) && offset_entries(m) == t,
                Err(s) => r matches Err(e) && e matches ElfError::SymbolNotFound(name) && name@ == s,
            },
    {
        let wanted = string_map_pairs(symbols_map);
        let ghost wv = wanted@.map_values(|e: (String, String)| (e.0@, e.1@));
        let mut offsets = offset_map_new();
        let mut i: usize = 0;
        while i < wanted.len()
            invariant
                i <= wanted@.len(),
                wv == wanted@.map_values(|e: (String, String)| (e.0@, e.1@)),
                wv == string_map_entries(*symbols_map),
                spec_function_offsets(self@, wv, i as nat) == Ok::<Seq<(Seq<char>, usize)>, Seq<char>>(
                    offset_entries(offsets),
                ),
            decreases wanted@.len() - i,
        {
            let (symbol, name) = (&wanted[i].0, &wanted[i].1);
            proof {
                assert(wv[i as int] == (symbol@, name@));
            }
            match find_key(&self.symbols, symbol) {
                Some(j) => {
                    proof {
                        lemma_key_index_at(self@, symbol@, j as int);
                    }
                    let offset = self.symbols[j].1;
                    offset_map_insert(&mut offsets, name.clone(), offset);
                },
                None => {
                    proof {
                        lemma_key_index_none(self@, symbol@);
                        lemma_function_offsets_err(self@, wv, (i + 1) as nat, wanted@.len());
                    }
                    return Err(ElfError::SymbolNotFound(symbol.clone()));
                },
            }
            i += 1;
        }
        Ok(offsets)
    }
}

/// The offsets of a map of offsets by name, in the map's order.
pub uninterp spec fn offset_entries(m: IndexMap<String, usize>) -> Seq<(Seq<char>, usize)>;

/// `IndexMap::new`: a map without entries.
#[verifier::external_body]
fn offset_map_new() -> (m: IndexMap<String, usize>)
    ensures
        offset_entries(m) == Seq::<(Seq<char>, usize)>::empty(),
{
    IndexMap::new()
}

/// `IndexMap::insert`: an existing key keeps its place and takes the new
/// value, a new key's entry goes last.
#[verifier::external_body]
fn offset_map_insert(m: &mut IndexMap<String, usize>, key: String, value: usize)
    ensures
        offset_entries(*final(m)) == assoc_insert(offset_entries(*old(m)), key@, value),
{
    m.insert(key, value);
}

} // verus!
