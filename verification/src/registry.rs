//! The event registry: a four-way mapping over one catalog of symbols.
//!
//! `EventRegistry::build` consumes the ordered catalog of symbolic event names
//! once and derives, for the symbol at position `i`: the id `i`, the canonical
//! name `transform_spec` of its spelling, and the NUL-terminated string form
//! of that name.  Construction is all-or-nothing: a catalog with an empty
//! spelling, a duplicated canonical name, or a canonical name that embeds a
//! NUL is refused, so every registry that exists is well formed and every
//! lookup on it is a pure read of an immutable table.

use vstd::prelude::*;
use vstd::string::StrSliceExecFns;
use crate::transform::push_char;
use crate::transform::transform_name;
use crate::transform::transform_spec;

verus! {

/// The largest admissible catalog size: ids are `i32`, so every position of
/// the catalog must fit in one.
pub const MAX_CATALOG_LEN: usize = 0x7fff_ffff;

/// One symbol of a catalog, identified by its zero-based declaration
/// position.  A `Symbol` is only meaningful together with the registry whose
/// catalog it indexes.
#[derive(Clone, Copy, PartialEq, Eq, Structural, Debug)]
pub struct Symbol {
    pub idx: usize,
}

/// Whether an ordered catalog of spellings is admissible: non-empty, small
/// enough for `i32` ids, every spelling non-empty, no canonical name embeds a
/// NUL, and the canonical names are pairwise distinct.
pub open spec fn catalog_ok(ss: Seq<Seq<char>>) -> bool {
    &&& 1 <= ss.len() <= MAX_CATALOG_LEN
    &&& forall|i: int| 0 <= i < ss.len() ==> (#[trigger] ss[i]).len() >= 1
    &&& forall|i: int| 0 <= i < ss.len() ==> !(#[trigger] transform_spec(ss[i])).contains('\0')
    &&& forall|i: int, j: int|
        0 <= i < j < ss.len() ==> transform_spec(ss[i]) != transform_spec(ss[j])
}

/// The immutable registry derived from one catalog.  Its view is the ordered
/// sequence of the catalog's spellings; ids, canonical names and string forms
/// are all functions of that view.
pub struct EventRegistry {
    symbols: Vec<String>,
    names: Vec<String>,
    cstrings: Vec<String>,
}

impl View for EventRegistry {
    type V = Seq<Seq<char>>;

    closed spec fn view(&self) -> Seq<Seq<char>> {
        self.symbols.deep_view()
    }
}

impl EventRegistry {
    /// Well-formedness: the three tables index the same catalog, the name
    /// table holds exactly the canonical names of the spellings, the string
    /// table holds exactly the names with one NUL appended, names are
    /// non-empty, NUL-free and pairwise distinct.
    pub closed spec fn wf(self) -> bool {
        &&& self.names@.len() == self.symbols@.len()
        &&& self.cstrings@.len() == self.symbols@.len()
        &&& 1 <= self.symbols@.len() <= MAX_CATALOG_LEN
        &&& forall|i: int|
            0 <= i < self.symbols@.len() ==> (#[trigger] self.names@[i])@ == transform_spec(
                self.symbols@[i]@,
            )
        &&& forall|i: int| 0 <= i < self.symbols@.len() ==> (#[trigger] self.names@[i])@.len() >= 1
        &&& forall|i: int|
            0 <= i < self.symbols@.len() ==> !(#[trigger] self.names@[i])@.contains('\0')
        &&& forall|i: int|
            0 <= i < self.symbols@.len() ==> (#[trigger] self.cstrings@[i])@
                == self.names@[i]@.push('\0')
        &&& forall|i: int, j: int|
            0 <= i < self.symbols@.len() && 0 <= j < self.symbols@.len() && i != j
                ==> (#[trigger] self.names@[i])@ != (#[trigger] self.names@[j])@
    }

    /// The number of symbols in the catalog.
    pub open spec fn spec_len(self) -> nat {
        self@.len()
    }

    /// The canonical name of the symbol at position `i`.
    pub open spec fn spec_name_of(self, i: int) -> Seq<char> {
        transform_spec(self@[i])
    }

    /// The NUL-terminated string form of the symbol at position `i`.
    pub open spec fn spec_cstring_of(self, i: int) -> Seq<char> {
        self.spec_name_of(i).push('\0')
    }

    /// Whether a symbol belongs to this catalog.
    pub open spec fn spec_contains(self, s: Symbol) -> bool {
        s.idx < self@.len()
    }

    /// The id of a symbol: its declaration position.
    pub open spec fn spec_as_id(self, s: Symbol) -> int {
        s.idx as int
    }

    /// Positional decode of an id: the symbol at that position when the id is
    /// in range, absent otherwise.
    pub open spec fn spec_lookup_by_id(self, id: int) -> Option<Symbol> {
        if 0 <= id < self@.len() {
            Some(Symbol { idx: id as usize })
        } else {
            None
        }
    }

    /// Lookup of a canonical name: the symbol whose canonical name equals
    /// `name` when one exists, absent otherwise.  Under `wf` the canonical
    /// names are distinct, so the witness is unique.
    pub open spec fn spec_lookup_by_name(self, name: Seq<char>) -> Option<Symbol> {
        if exists|i: int| 0 <= i < self@.len() && self.spec_name_of(i) == name {
            Some(
                Symbol {
                    idx: (choose|i: int| 0 <= i < self@.len() && self.spec_name_of(i) == name)
                        as usize,
                },
            )
        } else {
            None
        }
    }
}

/// Character-by-character string comparison, used for the duplicate check at
/// construction and for name lookup.
fn str_eq_string(a: &str, b: &String) -> (r: bool)
    ensures
        r == (a@ == b@),
{
    let an = a.unicode_len();
    let bn = b.as_str().unicode_len();
    if an != bn {
        return false;
    }
    let mut k: usize = 0;
    while k < an
        invariant
            an == a@.len(),
            an == b@.len(),
            k <= an,
            forall|t: int| 0 <= t < k ==> a@[t] == b@[t],
        decreases an - k,
    {
        if a.get_char(k) != b.as_str().get_char(k) {
            return false;
        }
        k += 1;
    }
    proof {
        assert(a@ =~= b@);
    }
    true
}

/// Whether a string contains a NUL character.
fn contains_nul(s: &String) -> (r: bool)
    ensures
        r == s@.contains('\0'),
{
    let n = s.as_str().unicode_len();
    let mut k: usize = 0;
    while k < n
        invariant
            n == s@.len(),
            k <= n,
            forall|t: int| 0 <= t < k ==> s@[t] != '\0',
        decreases n - k,
    {
        if s.as_str().get_char(k) == '\0' {
            return true;
        }
        k += 1;
    }
    false
}

impl EventRegistry {
    /// Build the registry for one catalog, given the spellings of its symbols
    /// in declaration order.  Succeeds exactly on admissible catalogs (see
    /// `catalog_ok`); on any defective catalog the whole construction is
    /// refused and no registry is produced.
    pub fn build(symbols: Vec<String>) -> (r: Option<EventRegistry>)
        ensures
            match r {
                Some(reg) => reg.wf() && reg@ == symbols.deep_view() && catalog_ok(
                    symbols.deep_view(),
                ),
                None => !catalog_ok(symbols.deep_view()),
            },
    {
        let ghost ss = symbols.deep_view();
        if symbols.len() == 0 || symbols.len() > MAX_CATALOG_LEN {
            return None;
        }
        let mut names: Vec<String> = Vec::new();
        let mut cstrings: Vec<String> = Vec::new();
        let mut i: usize = 0;
        while i < symbols.len()
            invariant
                ss == symbols.deep_view(),
                1 <= symbols@.len() <= MAX_CATALOG_LEN,
                i <= symbols@.len(),
                names@.len() == i,
                cstrings@.len() == i,
                forall|k: int| 0 <= k < i ==> (#[trigger] ss[k]).len() >= 1,
                forall|k: int|
                    0 <= k < i ==> (#[trigger] names@[k])@ == transform_spec(symbols@[k]@),
                forall|k: int| 0 <= k < i ==> (#[trigger] names@[k])@.len() >= 1,
                forall|k: int| 0 <= k < i ==> !(#[trigger] names@[k])@.contains('\0'),
                forall|k: int|
                    0 <= k < i ==> (#[trigger] cstrings@[k])@ == names@[k]@.push('\0'),
                forall|k: int, l: int|
                    0 <= k < l < i ==> (#[trigger] names@[k])@ != (#[trigger] names@[l])@,
            decreases symbols@.len() - i,
        {
            let sym: &String = &symbols[i];
            proof {
                assert(ss[i as int] == sym@);
            }
            if sym.as_str().is_empty() {
                proof {
                    assert(!catalog_ok(ss));
                }
                return None;
            }
            let name = transform_name(sym.as_str());
            if contains_nul(&name) {
                proof {
                    assert(transform_spec(ss[i as int]).contains('\0'));
                    assert(!catalog_ok(ss));
                }
                return None;
            }
            let mut j: usize = 0;
            while j < i
                invariant
                    ss == symbols.deep_view(),
                    i < symbols@.len(),
                    j <= i,
                    names@.len() == i,
                    name@ == transform_spec(symbols@[i as int]@),
                    forall|k: int|
                        0 <= k < i ==> (#[trigger] names@[k])@ == transform_spec(symbols@[k]@),
                    forall|k: int| 0 <= k < j ==> (#[trigger] names@[k])@ != name@,
                decreases i - j,
            {
                if str_eq_string(name.as_str(), &names[j]) {
                    proof {
                        assert(transform_spec(ss[j as int]) == transform_spec(ss[i as int]));
                        assert(!catalog_ok(ss));
                    }
                    return None;
                }
                j += 1;
            }
            let mut cstring = name.clone();
            push_char(&mut cstring, '\0');
            names.push(name);
            cstrings.push(cstring);
            i += 1;
        }
        let reg = EventRegistry { symbols, names, cstrings };
        proof {
            assert forall|k: int| 0 <= k < ss.len() implies !(#[trigger] transform_spec(
                ss[k],
            )).contains('\0') by {
                assert(ss[k] == reg.symbols@[k]@);
                assert(reg.names@[k]@ == transform_spec(reg.symbols@[k]@));
                assert(!reg.names@[k]@.contains('\0'));
            }
            assert forall|k: int, l: int| 0 <= k < l < ss.len() implies transform_spec(ss[k])
                != transform_spec(ss[l]) by {
                assert(ss[k] == reg.symbols@[k]@);
                assert(ss[l] == reg.symbols@[l]@);
                assert(reg.names@[k]@ == transform_spec(reg.symbols@[k]@));
                assert(reg.names@[l]@ == transform_spec(reg.symbols@[l]@));
            }
            assert(catalog_ok(ss));
            assert(reg.wf());
        }
        Some(reg)
    }

    /// The number of symbols in the catalog.
    pub fn len(&self) -> (n: usize)
        requires
            self.wf(),
        ensures
            n == self.spec_len(),
    {
        self.symbols.len()
    }

    /// Positional decode of an id: the symbol declared at position `id`, or
    /// absent when `id` is negative or at least the catalog size.  An unknown
    /// id is a normal outcome, not a fault.
    pub fn lookup_by_id(&self, id: i32) -> (r: Option<Symbol>)
        requires
            self.wf(),
        ensures
            r == self.spec_lookup_by_id(id as int),
    {
        if id >= 0 && (id as usize) < self.symbols.len() {
            Some(Symbol { idx: id as usize })
        } else {
            None
        }
    }

    /// The id of a symbol of this catalog: its declaration position.
    pub fn as_id(&self, sym: Symbol) -> (id: i32)
        requires
            self.wf(),
            self.spec_contains(sym),
        ensures
            id == self.spec_as_id(sym),
    {
        sym.idx as i32
    }

    /// The canonical lowercase underscore-separated name of a symbol of this
    /// catalog.
    pub fn canonical_name(&self, sym: Symbol) -> (r: &String)
        requires
            self.wf(),
            self.spec_contains(sym),
        ensures
            r@ == self.spec_name_of(sym.idx as int),
    {
        &self.names[sym.idx]
    }

    /// The NUL-terminated string form of a symbol of this catalog: its
    /// canonical name with exactly one NUL appended.
    pub fn canonical_string(&self, sym: Symbol) -> (r: &String)
        requires
            self.wf(),
            self.spec_contains(sym),
        ensures
            r@ == self.spec_cstring_of(sym.idx as int),
    {
        &self.cstrings[sym.idx]
    }

    /// Exact, case-sensitive lookup of a canonical name: the symbol whose
    /// canonical name equals `name`, or absent when no symbol of the catalog
    /// carries that name.  An unknown name is a normal outcome, not a fault.
    pub fn lookup_by_name(&self, name: &str) -> (r: Option<Symbol>)
        requires
            self.wf(),
        ensures
            r == self.spec_lookup_by_name(name@),
    {
        let n = self.names.len();
        let mut j: usize = 0;
        while j < n
            invariant
                self.wf(),
                n == self.names@.len(),
                n == self.spec_len(),
                j <= n,
                forall|k: int| 0 <= k < j ==> (#[trigger] self.names@[k])@ != name@,
            decreases n - j,
        {
            if str_eq_string(name, &self.names[j]) {
                proof {
                    assert(self.spec_name_of(j as int) == name@);
                    let w = choose|i: int|
                        0 <= i < self@.len() && self.spec_name_of(i) == name@;
                    if w != j {
                        assert(self.names@[w]@ == transform_spec(self.symbols@[w]@));
                        assert(self.names@[w]@ != self.names@[j as int]@);
                        assert(false);
                    }
                }
                return Some(Symbol { idx: j });
            }
            j += 1;
        }
        proof {
            assert forall|i: int| 0 <= i < self@.len() implies self.spec_name_of(i) != name@ by {
                assert(self.names@[i]@ == transform_spec(self.symbols@[i]@));
                assert(self.names@[i]@ != name@);
            }
        }
        None
    }

    /// Resolve an event name for the foreign-ABI boundary: the id of the
    /// symbol whose canonical name equals `name`, or absent when the name is
    /// unknown.  The boundary layer turns this into its status-code and
    /// output-pointer convention.
    pub fn describe_event_by_name(&self, name: &str) -> (r: Option<i32>)
        requires
            self.wf(),
        ensures
            r == (match self.spec_lookup_by_name(name@) {
                Some(s) => Some(s.idx as i32),
                None => None::<i32>,
            }),
    {
        match self.lookup_by_name(name) {
            Some(sym) => Some(self.as_id(sym)),
            None => None,
        }
    }

    /// Resolve an event id for the foreign-ABI boundary: the NUL-terminated
    /// string form of the symbol declared at position `id`, or absent when
    /// the id is unknown.  The boundary layer turns this into its status-code
    /// and output-pointer convention.
    pub fn describe_event_by_id(&self, id: i32) -> (r: Option<&String>)
        requires
            self.wf(),
        ensures
            match self.spec_lookup_by_id(id as int) {
                Some(s) => r matches Some(cs) && cs@ == self.spec_cstring_of(s.idx as int),
                None => r is None,
            },
    {
        match self.lookup_by_id(id) {
            Some(sym) => Some(self.canonical_string(sym)),
            None => None,
        }
    }

    /// The set of ids assigned over the whole catalog.
    pub open spec fn spec_id_set(self) -> Set<int> {
        Set::new(
            |id: int| exists|s: Symbol| self.spec_contains(s) && self.spec_as_id(s) == id,
        )
    }
}

/// Round trip: every symbol of a well-formed registry is recovered both by id
/// lookup from its own id and by name lookup from its own canonical name.
pub proof fn lemma_round_trip(r: EventRegistry, s: Symbol)
    requires
        r.wf(),
        r.spec_contains(s),
    ensures
        r.spec_lookup_by_id(r.spec_as_id(s)) == Some(s),
        r.spec_lookup_by_name(r.spec_name_of(s.idx as int)) == Some(s),
{
    let name = r.spec_name_of(s.idx as int);
    assert(r.names@[s.idx as int]@ == transform_spec(r.symbols@[s.idx as int]@));
    assert(r.spec_name_of(s.idx as int) == name);
    assert(exists|i: int| 0 <= i < r@.len() && r.spec_name_of(i) == name);
    let w = choose|i: int| 0 <= i < r@.len() && r.spec_name_of(i) == name;
    if w != s.idx {
        assert(r.names@[w]@ == transform_spec(r.symbols@[w]@));
        assert(r.names@[w]@ != r.names@[s.idx as int]@);
        assert(false);
    }
}

/// Id contiguity: for a catalog of `n` symbols, the ids assigned by the
/// registry are exactly the set `{0, 1, ..., n - 1}`.
pub proof fn lemma_id_contiguity(r: EventRegistry)
    requires
        r.wf(),
    ensures
        r.spec_id_set() =~= Set::new(|id: int| 0 <= id < r.spec_len()),
{
    assert forall|id: int| 0 <= id < r.spec_len() implies r.spec_id_set().contains(id) by {
        let s = Symbol { idx: id as usize };
        assert(r.spec_contains(s) && r.spec_as_id(s) == id);
    }
}

/// C-string form: the string form of every symbol is its canonical name
/// followed by exactly one NUL terminator, and nowhere else does a NUL occur
/// in it: the NUL stands at the last position and at no other.
pub proof fn lemma_cstring_form(r: EventRegistry, s: Symbol)
    requires
        r.wf(),
        r.spec_contains(s),
    ensures
        r.spec_cstring_of(s.idx as int) == r.spec_name_of(s.idx as int).push('\0'),
        r.spec_cstring_of(s.idx as int).len() == r.spec_name_of(s.idx as int).len() + 1,
        forall|k: int|
            0 <= k < r.spec_cstring_of(s.idx as int).len() ==> (r.spec_cstring_of(s.idx as int)[k]
                == '\0' <==> k == r.spec_cstring_of(s.idx as int).len() - 1),
{
    let i = s.idx as int;
    assert(r.names@[i]@ == transform_spec(r.symbols@[i]@));
    assert(!r.names@[i]@.contains('\0'));
    let name = r.spec_name_of(i);
    let cs = r.spec_cstring_of(i);
    assert forall|k: int| 0 <= k < cs.len() implies (cs[k] == '\0' <==> k == cs.len() - 1) by {
        if k < cs.len() - 1 {
            assert(cs[k] == name[k]);
            if name[k] == '\0' {
                assert(name.contains('\0'));
            }
        }
    }
}

/// Unknown lookups are a normal outcome: an id outside the catalog's range
/// and a name that no symbol of the catalog carries both resolve to an
/// explicit absence, never to a fault.
pub proof fn lemma_unknown_lookup(r: EventRegistry, id: int, name: Seq<char>)
    requires
        r.wf(),
        !(0 <= id < r.spec_len()),
        forall|i: int| 0 <= i < r.spec_len() ==> r.spec_name_of(i) != name,
    ensures
        r.spec_lookup_by_id(id) is None,
        r.spec_lookup_by_name(name) is None,
{
}

} // verus!
