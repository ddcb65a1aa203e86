//! Diagnostics: the file offsets of a backtrace, and which untranslated
//! texts are logged.

use vstd::prelude::*;

use crate::memory::{ends_with, region_for, MemoryRegions, RegionView};
use crate::strings::{append_str, chars_to_string};
use crate::translator::{should_skip_translation, spec_should_skip};

verus! {

// ---------------------------------------------------------------------------
// Backtraces

pub open spec fn hex_digit_char(d: int) -> char {
    if d < 10 {
        ('0' as int + d) as char
    } else {
        ('a' as int + d - 10) as char
    }
}

/// `n` in lowercase hexadecimal, without leading zeros.
pub open spec fn hex_string(n: nat) -> Seq<char>
    decreases n,
{
    if n < 16 {
        seq![hex_digit_char(n as int)]
    } else {
        hex_string(n / 16) + seq![hex_digit_char((n % 16) as int)]
    }
}

/// Format `n` in lowercase hexadecimal.
pub fn to_hex(n: usize) -> (s: Vec<char>)
    ensures
        s@ == hex_string(n as nat),
    decreases n,
{
    let d = n % 16;
    let c = if d < 10 {
        char_from_digit(48 + d as u32)
    } else {
        char_from_digit(97 + d as u32 - 10)
    };
    if n < 16 {
        let mut v: Vec<char> = Vec::new();
        v.push(c);
        proof {
            assert(v@ =~= seq![hex_digit_char(n as int)]);
        }
        v
    } else {
        let mut v = to_hex(n / 16);
        v.push(c);
        proof {
            assert(v@ =~= hex_string((n / 16) as nat) + seq![hex_digit_char((n % 16) as int)]);
        }
        v
    }
}

fn char_from_digit(code: u32) -> (c: char)
    requires
        48 <= code <= 57 || 97 <= code <= 102,
    ensures
        c as int == code,
{
    if code == 48 {
        '0'
    } else if code == 49 {
        '1'
    } else if code == 50 {
        '2'
    } else if code == 51 {
        '3'
    } else if code == 52 {
        '4'
    } else if code == 53 {
        '5'
    } else if code == 54 {
        '6'
    } else if code == 55 {
        '7'
    } else if code == 56 {
        '8'
    } else if code == 57 {
        '9'
    } else if code == 97 {
        'a'
    } else if code == 98 {
        'b'
    } else if code == 99 {
        'c'
    } else if code == 100 {
        'd'
    } else if code == 101 {
        'e'
    } else {
        'f'
    }
}

/// The library whose offsets are marked with '@'.
pub open spec fn marked_library() -> Seq<char> {
    seq!['/', 'l', 'i', 'b', 'g', '_', 's', 'r', 'c', '_', 'l', 'i', 'b', '.', 's', 'o']
}

/// The entry of an address: its offset in the module that holds it, in hex,
/// after `prefix`, and after '@' in the game's main library; nothing where no
/// region holds it.
pub open spec fn address_entry(regions: Seq<RegionView>, address: usize, prefix: Seq<char>) -> Seq<Seq<char>> {
    match region_for(regions, address, 0) {
        Some(i) => {
            let offset = hex_string((address - regions[i].1) as nat);
            if ends_with(regions[i].0, marked_library()) {
                seq![prefix + seq!['@'] + offset]
            } else {
                seq![prefix + offset]
            }
        },
        None => Seq::empty(),
    }
}

/// The entries of frames `0..n`: the instruction pointer's, marked with
/// '^', then the symbol address's.
pub open spec fn backtrace_entries(regions: Seq<RegionView>, frames: Seq<(usize, usize)>, n: nat) -> Seq<Seq<char>>
    decreases n,
{
    if n == 0 {
        Seq::empty()
    } else {
        backtrace_entries(regions, frames, (n - 1) as nat) + address_entry(regions, frames[n - 1].0, seq!['^'])
            + address_entry(regions, frames[n - 1].1, Seq::empty())
    }
}

/// The number of frames before the first one without an instruction pointer.
pub open spec fn frames_before_null(frames: Seq<(usize, usize)>, n: nat) -> nat
    decreases n,
{
    if n == 0 {
        0
    } else if frames_before_null(frames, (n - 1) as nat) < n - 1 {
        frames_before_null(frames, (n - 1) as nat)
    } else if frames[n - 1].0 == 0 {
        (n - 1) as nat
    } else {
        n
    }
}

/// Entries joined with '/'.
pub open spec fn join_slash(parts: Seq<Seq<char>>) -> Seq<char>
    decreases parts.len(),
{
    if parts.len() == 0 {
        Seq::empty()
    } else if parts.len() == 1 {
        parts[0]
    } else {
        join_slash(parts.drop_last()) + seq!['/'] + parts.last()
    }
}

/// Every region starts at or after its module's base.
pub open spec fn regions_based(regions: Seq<RegionView>) -> bool {
    forall|j: int| 0 <= j < regions.len() ==> (#[trigger] regions[j]).1 <= regions[j].2
}

impl MemoryRegions {
    /// Whether every region starts at or after its module's base.
    pub fn bases_ok(&self) -> (b: bool)
        ensures
            b == regions_based(self@),
    {
        let n = self.len();
        let mut i: usize = 0;
        while i < n
            invariant
                n == self@.len(),
                i <= n,
                forall|j: int| 0 <= j < i ==> (#[trigger] self@[j]).1 <= self@[j].2,
            decreases n - i,
        {
            let (base, start) = self.base_and_start(i);
            if base > start {
                return false;
            }
            i += 1;
        }
        true
    }
}

/// The region that holds `address`, if one does, starts at or after its
/// module's base.
pub open spec fn address_based(regions: Seq<RegionView>, address: usize) -> bool {
    match region_for(regions, address, 0) {
        Some(i) => regions[i].1 <= address,
        None => true,
    }
}

/// Both addresses of every frame before the first without an instruction
/// pointer are based.
pub open spec fn frames_based(regions: Seq<RegionView>, frames: Seq<(usize, usize)>) -> bool {
    forall|k: int|
        0 <= k < frames_before_null(frames, frames.len()) ==> address_based(regions, (#[trigger] frames[k]).0)
            && address_based(regions, frames[k].1)
}

impl MemoryRegions {
    /// Whether the region that holds `address`, if one does, starts at or
    /// after its module's base.
    pub fn address_based(&self, address: usize) -> (b: bool)
        ensures
            b == address_based(self@, address),
    {
        proof {
            crate::memory::lemma_region_for(self@, address, 0);
        }
        let n = self.len();
        let mut i: usize = 0;
        while i < n
            invariant
                n == self@.len(),
                i <= n,
                region_for(self@, address, 0) == region_for(self@, address, i as int),
            decreases n - i,
        {
            let r = self.region(i);
            if r.2 <= address && address < r.3 {
                return r.1 <= address;
            }
            i += 1;
        }
        true
    }

    /// Whether both addresses of every frame before the first without an
    /// instruction pointer are based.
    pub fn frames_based(&self, frames: &Vec<(usize, usize)>) -> (b: bool)
        ensures
            b == frames_based(self@, frames@),
    {
        let mut i: usize = 0;
        while i < frames.len() && frames[i].0 != 0
            invariant
                i <= frames@.len(),
                frames_before_null(frames@, i as nat) == i,
                forall|k: int|
                    0 <= k < i ==> address_based(self@, (#[trigger] frames@[k]).0) && address_based(self@, frames@[k].1),
            decreases frames@.len() - i,
        {
            if !self.address_based(frames[i].0) || !self.address_based(frames[i].1) {
                proof {
                    lemma_frames_before_null_step(frames@, i as nat);
                    lemma_frames_before_null_mono(frames@, (i + 1) as nat, frames@.len());
                }
                return false;
            }
            proof {
                lemma_frames_before_null_step(frames@, i as nat);
            }
            i += 1;
        }
        proof {
            lemma_frames_before_null(frames@, i as nat, frames@.len());
        }
        true
    }
}

fn entry_of(regions: &MemoryRegions, address: usize, caret: bool, parts: &mut Vec<Vec<char>>)
    requires
        address_based(regions@, address),
    ensures
        final(parts)@.map_values(|v: Vec<char>| v@) == old(parts)@.map_values(|v: Vec<char>| v@) + address_entry(
            regions@,
            address,
            if caret {
                seq!['^']
            } else {
                Seq::empty()
            },
        ),
{
    proof {
        crate::memory::lemma_region_for(regions@, address, 0);
    }
    match regions.get_file_offset_by_memory_address(address) {
        Some((path, offset)) => {
            let mut entry: Vec<char> = Vec::new();
            if caret {
                entry.push('^');
            }
            let marked = "/libg_src_lib.so".to_owned();
            proof {
                reveal_strlit("/libg_src_lib.so");
                assert("/libg_src_lib.so"@ =~= marked_library());
            }
            if crate::memory::str_ends_with(&path, &marked) {
                entry.push('@');
            }
            let hex = to_hex(offset);
            let mut k: usize = 0;
            let ghost head = entry@;
            while k < hex.len()
                invariant
                    k <= hex@.len(),
                    entry@ == head + hex@.take(k as int),
                decreases hex@.len() - k,
            {
                proof {
                    assert(hex@.take(k as int + 1) =~= hex@.take(k as int).push(hex@[k as int]));
                }
                entry.push(hex[k]);
                k += 1;
            }
            proof {
                assert(hex@.take(hex@.len() as int) =~= hex@);
            }
            let ghost before = parts@.map_values(|v: Vec<char>| v@);
            let ghost ev = entry@;
            parts.push(entry);
            proof {
                assert(parts@.map_values(|v: Vec<char>| v@) =~= before.push(ev));
                let i = region_for(regions@, address, 0)->0;
                if caret {
                    if ends_with(regions@[i].0, marked_library()) {
                        assert(ev =~= seq!['^'] + seq!['@'] + hex_string((address - regions@[i].1) as nat));
                    } else {
                        assert(ev =~= seq!['^'] + hex_string((address - regions@[i].1) as nat));
                    }
                } else {
                    if ends_with(regions@[i].0, marked_library()) {
                        assert(ev =~= Seq::<char>::empty() + seq!['@'] + hex_string((address - regions@[i].1) as nat));
                    } else {
                        assert(ev =~= Seq::<char>::empty() + hex_string((address - regions@[i].1) as nat));
                    }
                }
            }
        },
        None => {
            proof {
                assert(parts@.map_values(|v: Vec<char>| v@) =~= parts@.map_values(|v: Vec<char>| v@) + Seq::<
                    Seq<char>,
                >::empty());
            }
        },
    }
}

/// The backtrace of the frames, as (instruction pointer, symbol address)
/// pairs up to the first without an instruction pointer: each address's
/// offset in its module, '/'-separated; empty unless `debug` logging is on.
pub fn backtrace(regions: &MemoryRegions, frames: &Vec<(usize, usize)>, debug: bool) -> (s: String)
    requires
        frames_based(regions@, frames@),
    ensures
        s@ == if debug {
            join_slash(backtrace_entries(regions@, frames@, frames_before_null(frames@, frames@.len())))
        } else {
            Seq::empty()
        },
{
    if !debug {
        return String::new();
    }
    let mut parts: Vec<Vec<char>> = Vec::new();
    let mut i: usize = 0;
    proof {
        assert(parts@.map_values(|v: Vec<char>| v@) =~= Seq::<Seq<char>>::empty());
    }
    while i < frames.len() && frames[i].0 != 0
        invariant
            i <= frames@.len(),
            frames_based(regions@, frames@),
            frames_before_null(frames@, i as nat) == i,
            parts@.map_values(|v: Vec<char>| v@) == backtrace_entries(regions@, frames@, i as nat),
        decreases frames@.len() - i,
    {
        proof {
            lemma_frames_before_null_step(frames@, i as nat);
            lemma_frames_before_null_mono(frames@, (i + 1) as nat, frames@.len());
            assert(address_based(regions@, frames@[i as int].0) && address_based(regions@, frames@[i as int].1));
        }
        entry_of(regions, frames[i].0, true, &mut parts);
        entry_of(regions, frames[i].1, false, &mut parts);
        i += 1;
    }
    proof {
        lemma_frames_before_null(frames@, i as nat, frames@.len());
    }
    let mut out: Vec<char> = Vec::new();
    let mut k: usize = 0;
    let ghost pv = parts@.map_values(|v: Vec<char>| v@);
    while k < parts.len()
        invariant
            k <= parts@.len(),
            pv == parts@.map_values(|v: Vec<char>| v@),
            out@ == join_slash(pv.take(k as int)),
        decreases parts@.len() - k,
    {
        let ghost before = out@;
        if k > 0 {
            out.push('/');
        }
        let piece = &parts[k];
        let mut q: usize = 0;
        let ghost head = out@;
        while q < piece.len()
            invariant
                q <= piece@.len(),
                out@ == head + piece@.take(q as int),
            decreases piece@.len() - q,
        {
            proof {
                assert(piece@.take(q as int + 1) =~= piece@.take(q as int).push(piece@[q as int]));
            }
            out.push(piece[q]);
            q += 1;
        }
        proof {
            assert(piece@.take(piece@.len() as int) =~= piece@);
            assert(pv[k as int] == piece@);
            assert(pv.take(k as int + 1).drop_last() =~= pv.take(k as int));
            if k == 0 {
                assert(out@ =~= pv.take(1)[0]);
            } else {
                assert(out@ =~= join_slash(pv.take(k as int)) + seq!['/'] + pv.take(k as int + 1).last());
            }
        }
        k += 1;
    }
    proof {
        assert(pv.take(pv.len() as int) =~= pv);
    }
    chars_to_string(&out)
}

proof fn lemma_frames_before_null(frames: Seq<(usize, usize)>, i: nat, n: nat)
    requires
        i <= n <= frames.len(),
        frames_before_null(frames, i) == i,
        i == n || frames[i as int].0 == 0,
    ensures
        frames_before_null(frames, n) == i,
    decreases n - i,
{
    if i < n {
        lemma_frames_before_null_stop(frames, i, n);
    }
}

/// A frame with an instruction pointer after frames that all have one
/// counts too.
proof fn lemma_frames_before_null_step(frames: Seq<(usize, usize)>, i: nat)
    requires
        i < frames.len(),
        frames_before_null(frames, i) == i,
        frames[i as int].0 != 0,
    ensures
        frames_before_null(frames, i + 1) == i + 1,
{
    assert(frames_before_null(frames, (i + 1) as nat) == i + 1);
}

/// Counting over more frames counts no fewer.
proof fn lemma_frames_before_null_mono(frames: Seq<(usize, usize)>, i: nat, n: nat)
    requires
        i <= n <= frames.len(),
    ensures
        frames_before_null(frames, i) <= frames_before_null(frames, n),
    decreases n - i,
{
    if i < n {
        lemma_frames_before_null_mono(frames, i, (n - 1) as nat);
        assert(frames_before_null(frames, (n - 1) as nat) <= frames_before_null(frames, n));
    }
}

proof fn lemma_frames_before_null_stop(frames: Seq<(usize, usize)>, i: nat, n: nat)
    requires
        i < n <= frames.len(),
        frames_before_null(frames, i) == i,
        frames[i as int].0 == 0,
    ensures
        frames_before_null(frames, n) == i,
    decreases n - i,
{
    if n == i + 1 {
    } else {
        lemma_frames_before_null_stop(frames, i, (n - 1) as nat);
    }
}

// ---------------------------------------------------------------------------
// Logging untranslated texts

/// The game function a text was rendered by.
#[derive(Clone, Copy, Debug, PartialEq, Eq, Structural)]
pub enum ContextKind {
    Addst,
    AddstFlag,
    Addcoloredst,
    TopAddst,
    MarkupTextBox,
    Dfhack,
}

/// The name under which texts of each kind are logged.
pub open spec fn spec_context_kind(kind: ContextKind) -> Seq<char> {
    match kind {
        ContextKind::Addst => seq!['a', 'd', 'd', 's', 't'],
        ContextKind::AddstFlag => seq!['a', 'd', 'd', 's', 't', '_', 'f', 'l', 'a', 'g'],
        ContextKind::Addcoloredst => seq!['a', 'd', 'd', 'c', 'o', 'l', 'o', 'r', 'e', 'd', 's', 't'],
        ContextKind::TopAddst => seq!['t', 'o', 'p', '_', 'a', 'd', 'd', 's', 't'],
        ContextKind::MarkupTextBox => seq![
            'm', 't', 'b', '_', 'p', 'r', 'o', 'c', 'e', 's', 's', '_', 's', 't', 'r', 'i', 'n', 'g', '_', 't', 'o',
            '_', 'l', 'i', 'n', 'e', 's',
        ],
        ContextKind::Dfhack => seq!['d', 'f', 'h', 'a', 'c', 'k'],
    }
}

/// The name under which texts of a kind are logged.
pub fn context_kind(kind: ContextKind) -> (name: &'static str)
    ensures
        name@ == spec_context_kind(kind),
{
    match kind {
        ContextKind::Addst => {
            proof {
                reveal_strlit("addst");
            }
            "addst"
        },
        ContextKind::AddstFlag => {
            proof {
                reveal_strlit("addst_flag");
            }
            "addst_flag"
        },
        ContextKind::Addcoloredst => {
            proof {
                reveal_strlit("addcoloredst");
            }
            "addcoloredst"
        },
        ContextKind::TopAddst => {
            proof {
                reveal_strlit("top_addst");
            }
            "top_addst"
        },
        ContextKind::MarkupTextBox => {
            proof {
                reveal_strlit("mtb_process_string_to_lines");
            }
            "mtb_process_string_to_lines"
        },
        ContextKind::Dfhack => {
            proof {
                reveal_strlit("dfhack");
            }
            "dfhack"
        },
    }
}

/// The texts logged so far, each as its kind's name, a NUL and the text.
pub struct VisitedTexts {
    keys: Vec<Vec<char>>,
}

impl View for VisitedTexts {
    type V = Set<Seq<char>>;

    closed spec fn view(&self) -> Set<Seq<char>> {
        Set::new(|k: Seq<char>| exists|i: int| 0 <= i < self.keys@.len() && #[trigger] self.keys@[i]@ == k)
    }
}

/// The key under which a text is remembered.
pub open spec fn visit_key(function: Seq<char>, content: Seq<char>) -> Seq<char> {
    function + seq!['\0'] + content
}

impl VisitedTexts {
    pub fn new() -> (v: VisitedTexts)
        ensures
            v@ == Set::<Seq<char>>::empty(),
    {
        let v = VisitedTexts { keys: Vec::new() };
        proof {
            assert(v@ =~= Set::<Seq<char>>::empty());
        }
        v
    }

    /// Remember a text of a kind; whether it is new.
    pub fn visit(&mut self, function: &str, content: &str) -> (new: bool)
        ensures
            new == !old(self)@.contains(visit_key(function@, content@)),
            final(self)@ == old(self)@.insert(visit_key(function@, content@)),
    {
        let mut key: Vec<char> = Vec::new();
        append_str(&mut key, function);
        key.push('\0');
        append_str(&mut key, content);
        proof {
            assert(key@ =~= visit_key(function@, content@));
        }
        let mut i: usize = 0;
        while i < self.keys.len()
            invariant
                i <= self.keys@.len(),
                self.keys@ == old(self).keys@,
                key@ == visit_key(function@, content@),
                forall|j: int| 0 <= j < i ==> (#[trigger] self.keys@[j])@ != key@,
            decreases self.keys@.len() - i,
        {
            if vec_chars_equal(&self.keys[i], &key) {
                proof {
                    assert(self.keys@[i as int]@ == key@);
                    assert(self@.contains(key@));
                    assert(self@.insert(key@) =~= self@);
                }
                return false;
            }
            i += 1;
        }
        let ghost k = key@;
        self.keys.push(key);
        proof {
            assert(!old(self)@.contains(k));
            assert forall|x: Seq<char>| self@.contains(x) <==> old(self)@.insert(k).contains(x) by {
                if self@.contains(x) {
                    let j = choose|j: int| 0 <= j < self.keys@.len() && #[trigger] self.keys@[j]@ == x;
                    if j < old(self).keys@.len() {
                        assert(self.keys@[j] == old(self).keys@[j]);
                    }
                }
                if old(self)@.contains(x) {
                    let j = choose|j: int| 0 <= j < old(self).keys@.len() && #[trigger] old(self).keys@[j]@ == x;
                    assert(self.keys@[j] == old(self).keys@[j]);
                }
                if x == k {
                    assert(self.keys@[old(self).keys@.len() as int]@ == k);
                }
            }
            assert(self@ =~= old(self)@.insert(k));
        }
        true
    }
}

fn vec_chars_equal(a: &Vec<char>, b: &Vec<char>) -> (eq: bool)
    ensures
        eq == (a@ == b@),
{
    if a.len() != b.len() {
        return false;
    }
    let mut i: usize = 0;
    while i < a.len()
        invariant
            a@.len() == b@.len(),
            i <= a@.len(),
            forall|j: int| 0 <= j < i ==> a@[j] == b@[j],
        decreases a@.len() - i,
    {
        if a[i] != b[i] {
            return false;
        }
        i += 1;
    }
    proof {
        assert(a@ =~= b@);
    }
    true
}

/// Whether a text is to be logged, given the texts logged before.
pub open spec fn spec_log_text(visited: Set<Seq<char>>, version: Seq<char>, kind: ContextKind, content: Seq<char>) -> bool {
    !spec_should_skip(content, version) && !visited.contains(visit_key(spec_context_kind(kind), content))
}

/// The texts logged after a text was seen.
pub open spec fn spec_logged(visited: Set<Seq<char>>, version: Seq<char>, kind: ContextKind, content: Seq<char>) -> Set<Seq<char>> {
    if spec_should_skip(content, version) {
        visited
    } else {
        visited.insert(visit_key(spec_context_kind(kind), content))
    }
}

/// Whether an untranslated text is to be logged: it is not skipped, and it
/// was not logged before under its kind. A text to be logged is remembered.
pub fn log_text(visited: &mut VisitedTexts, version: &str, kind: ContextKind, content: &str) -> (log: bool)
    ensures
        log == spec_log_text(old(visited)@, version@, kind, content@),
        final(visited)@ == spec_logged(old(visited)@, version@, kind, content@),
{
    if should_skip_translation(content, version) {
        return false;
    }
    let function = context_kind(kind);
    visited.visit(function, content)
}

/// A text is logged at most once under its kind: once seen, the same text of
/// the same kind is not logged again, whatever else was seen in between.
pub proof fn lemma_log_text_once(
    visited: Set<Seq<char>>,
    version: Seq<char>,
    kind: ContextKind,
    content: Seq<char>,
    others: Set<Seq<char>>,
)
    ensures
        !spec_log_text(spec_logged(visited, version, kind, content).union(others), version, kind, content),
{
}

} // verus!
