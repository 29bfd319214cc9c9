//! String interning: each distinct string is stored once and named by a small [`Symbol`].
use vstd::prelude::*;

use crate::text::str_eq;

verus! {

/// A unique identifier for a string stored in a [`SymbolRegistry`].
#[derive(Debug, Clone, Copy, PartialEq, Eq, Hash, Structural)]
pub struct Symbol(u32);

impl Symbol {
    /// The position of the symbol's string in the registry that issued it.
    pub closed spec fn id(self) -> u32 {
        self.0
    }

    /// The symbol naming the string at position `id`.
    pub closed spec fn from_id(id: u32) -> Symbol {
        Symbol(id)
    }
}

/// A symbol is determined by its position.
pub broadcast proof fn lemma_symbol_ext(a: Symbol, b: Symbol)
    ensures
        #![trigger a.id(), b.id()]
        (a.id() == b.id()) <==> a == b,
{
}

/// `Symbol::from_id` names exactly the given position.
pub broadcast proof fn lemma_symbol_from_id(id: u32)
    ensures
        #[trigger] Symbol::from_id(id).id() == id,
{
}

/// The registry contents after interning `text`, and the position of `text` in them.
///
/// A string already present keeps its position and leaves the contents unchanged;
/// a new string is appended at the end.
pub open spec fn intern_spec(strings: Seq<Seq<char>>, text: Seq<char>) -> (Seq<Seq<char>>, int) {
    if strings.contains(text) {
        (strings, strings.index_of(text))
    } else {
        (strings.push(text), strings.len() as int)
    }
}

/// Interning then resolving gives back the string: the position of an
/// interned string holds that string.
pub proof fn lemma_intern_resolves(strings: Seq<Seq<char>>, text: Seq<char>)
    ensures
        0 <= intern_spec(strings, text).1 < intern_spec(strings, text).0.len(),
        intern_spec(strings, text).0[intern_spec(strings, text).1] == text,
{
    if strings.contains(text) {
    }
}

/// Interning a string a second time changes nothing and gives the same symbol.
pub proof fn lemma_intern_idempotent(strings: Seq<Seq<char>>, text: Seq<char>)
    ensures
        intern_spec(intern_spec(strings, text).0, text) == intern_spec(strings, text),
{
    if !strings.contains(text) {
        let after = strings.push(text);
        assert(after[strings.len() as int] == text);
        let k = after.index_of(text);
        if k < strings.len() {
            assert(strings[k] == text);
        }
    }
}

/// Interning only appends: the strings already interned keep their positions.
pub proof fn lemma_intern_keeps_positions(strings: Seq<Seq<char>>, text: Seq<char>)
    ensures
        intern_spec(strings, text).0.len() >= strings.len(),
        intern_spec(strings, text).0.subrange(0, strings.len() as int) == strings,
{
    assert(strings.push(text).subrange(0, strings.len() as int) =~= strings);
    assert(strings.subrange(0, strings.len() as int) =~= strings);
}

/// The registry contents after interning each of `texts` in turn.
pub open spec fn intern_all(strings: Seq<Seq<char>>, texts: Seq<Seq<char>>) -> Seq<Seq<char>>
    decreases texts.len(),
{
    if texts.len() == 0 {
        strings
    } else {
        intern_all(intern_spec(strings, texts[0]).0, texts.drop_first())
    }
}

/// Interning keeps each string once.
pub proof fn lemma_intern_no_duplicates(strings: Seq<Seq<char>>, text: Seq<char>)
    requires
        strings.no_duplicates(),
    ensures
        intern_spec(strings, text).0.no_duplicates(),
{
    if !strings.contains(text) {
        let after = strings.push(text);
        assert forall|a: int, b: int| 0 <= a < after.len() && 0 <= b < after.len() && a != b implies
            after[a] != after[b] by {
            if a == strings.len() {
                assert(strings[b] == after[b]);
            } else if b == strings.len() {
                assert(strings[a] == after[a]);
            }
        }
    }
}

/// Any number of interns only append, and keep each string once.
pub proof fn lemma_intern_all_keeps_positions(strings: Seq<Seq<char>>, texts: Seq<Seq<char>>)
    ensures
        intern_all(strings, texts).len() >= strings.len(),
        intern_all(strings, texts).subrange(0, strings.len() as int) == strings,
        strings.no_duplicates() ==> intern_all(strings, texts).no_duplicates(),
    decreases texts.len(),
{
    if texts.len() > 0 {
        let s1 = intern_spec(strings, texts[0]).0;
        lemma_intern_keeps_positions(strings, texts[0]);
        if strings.no_duplicates() {
            lemma_intern_no_duplicates(strings, texts[0]);
        }
        lemma_intern_all_keeps_positions(s1, texts.drop_first());
        let all = intern_all(s1, texts.drop_first());
        assert(all.subrange(0, strings.len() as int) =~= all.subrange(0, s1.len() as int).subrange(
            0,
            strings.len() as int,
        ));
    }
}

/// A symbol still resolves to its string however many strings are interned
/// after it: after interning `text` and then each of `later`, the position
/// that the first intern gave holds `text`.
pub proof fn lemma_symbol_resolves_after_interns(
    strings: Seq<Seq<char>>,
    text: Seq<char>,
    later: Seq<Seq<char>>,
)
    ensures
        ({
            let (s1, id) = intern_spec(strings, text);
            0 <= id < intern_all(s1, later).len() && intern_all(s1, later)[id] == text
        }),
{
    let (s1, id) = intern_spec(strings, text);
    lemma_intern_resolves(strings, text);
    lemma_intern_all_keeps_positions(s1, later);
    assert(intern_all(s1, later).subrange(0, s1.len() as int)[id] == s1[id]);
}

/// Two strings get the same symbol exactly when they are equal, whatever
/// strings are interned between the two calls, in a registry in which each
/// string occurs once.
pub proof fn lemma_distinct_strings_distinct_symbols(
    strings: Seq<Seq<char>>,
    a: Seq<char>,
    between: Seq<Seq<char>>,
    b: Seq<char>,
)
    requires
        strings.no_duplicates(),
    ensures
        ({
            let (s1, ia) = intern_spec(strings, a);
            let ib = intern_spec(intern_all(s1, between), b).1;
            (ia == ib) <==> (a == b)
        }),
{
    let (s1, ia) = intern_spec(strings, a);
    let s2 = intern_all(s1, between);
    let (s3, ib) = intern_spec(s2, b);
    lemma_symbol_resolves_after_interns(strings, a, between);
    lemma_intern_no_duplicates(strings, a);
    lemma_intern_all_keeps_positions(s1, between);
    lemma_intern_resolves(s2, b);
    lemma_intern_keeps_positions(s2, b);
    assert(s3.subrange(0, s2.len() as int)[ia] == s2[ia]);
    assert(s3[ia] == a);
    if a == b {
        assert(s2.contains(b)) by {
            assert(s2[ia] == b);
        }
        assert(s2[ib] == b);
    }
}

/// A central registry for string interning.
///
/// Its view lists the interned strings in the order they were first interned;
/// the position of a string in that list is the id of its [`Symbol`].
pub struct SymbolRegistry {
    strings: Vec<String>,
}

impl View for SymbolRegistry {
    type V = Seq<Seq<char>>;

    closed spec fn view(&self) -> Seq<Seq<char>> {
        self.strings@.map_values(|s: String| s@)
    }
}

impl SymbolRegistry {
    #[verifier::type_invariant]
    closed spec fn inv(self) -> bool {
        &&& self@.no_duplicates()
        &&& self@.len() <= u32::MAX + 1
    }

    /// Whether the registry may hold `strings` at run time: each string occurs once,
    /// and every position fits in a symbol id.
    pub open spec fn valid_contents(strings: Seq<Seq<char>>) -> bool {
        &&& strings.no_duplicates()
        &&& strings.len() <= u32::MAX + 1
    }

    /// Creates a new, empty registry.
    pub fn new() -> (r: SymbolRegistry)
        ensures
            r@ == Seq::<Seq<char>>::empty(),
            Self::valid_contents(r@),
    {
        let r = SymbolRegistry { strings: Vec::new() };
        proof {
            assert(r@ =~= Seq::<Seq<char>>::empty());
        }
        r
    }

    /// Finds the position of `value`, if it has been interned.
    fn position(&self, value: &str) -> (r: Option<usize>)
        ensures
            match r {
                Some(i) => i < self@.len() && self@[i as int] == value@ && i == self@.index_of(value@),
                None => !self@.contains(value@),
            },
    {
        proof {
            use_type_invariant(self);
        }
        let mut i: usize = 0;
        while i < self.strings.len()
            invariant
                i <= self.strings@.len(),
                self@.len() == self.strings@.len(),
                self@.no_duplicates(),
                forall|j: int| 0 <= j < i ==> self@[j] != value@,
            decreases self.strings@.len() - i,
        {
            if str_eq(self.strings[i].as_str(), value) {
                proof {
                    assert(self@[i as int] == value@);
                    assert(self@.contains(value@));
                    let k = self@.index_of(value@);
                    assert(self@[k] == value@);
                }
                return Some(i);
            }
            i = i + 1;
        }
        None
    }

    /// Interns a string, returning its [`Symbol`].
    ///
    /// If the string is already present, its existing symbol is returned;
    /// otherwise it is appended and a new symbol is issued.
    pub fn intern(&mut self, value: &str) -> (symbol: Symbol)
        requires
            old(self)@.contains(value@) || old(self)@.len() <= u32::MAX,
        ensures
            final(self)@ == intern_spec(old(self)@, value@).0,
            symbol.id() == intern_spec(old(self)@, value@).1,
            final(self)@[symbol.id() as int] == value@,
            Self::valid_contents(final(self)@),
    {
        proof {
            use_type_invariant(&*self);
        }
        match self.position(value) {
            Some(i) => Symbol(i as u32),
            None => {
                let id = self.strings.len() as u32;
                let ghost before = self@;
                let mut strings: Vec<String> = Vec::new();
                proof {
                    assert(strings@.map_values(|s: String| s@) =~= Seq::<Seq<char>>::empty());
                }
                std::mem::swap(&mut strings, &mut self.strings);
                assert(strings@.map_values(|s: String| s@) == before);
                strings.push(value.to_owned());
                let ghost after = strings@.map_values(|s: String| s@);
                proof {
                    assert(after =~= before.push(value@));
                    assert forall|a: int, b: int|
                        0 <= a < after.len() && 0 <= b < after.len() && a != b implies after[a]
                        != after[b] by {
                        if a < before.len() && b < before.len() {
                        } else if a == before.len() {
                            assert(!before.contains(value@));
                            assert(before[b] == after[b]);
                        } else {
                            assert(!before.contains(value@));
                            assert(before[a] == after[a]);
                        }
                    }
                }
                std::mem::swap(&mut strings, &mut self.strings);
                Symbol(id)
            },
        }
    }

    /// Returns the [`Symbol`] associated with `value`, if it has been interned.
    pub fn get(&self, value: &str) -> (r: Option<Symbol>)
        ensures
            match r {
                Some(symbol) => self@.contains(value@) && symbol.id() == self@.index_of(value@)
                    && self@[symbol.id() as int] == value@,
                None => !self@.contains(value@),
            },
            Self::valid_contents(self@),
    {
        proof {
            use_type_invariant(self);
        }
        match self.position(value) {
            Some(i) => Some(Symbol(i as u32)),
            None => None,
        }
    }

    /// Resolves a [`Symbol`] back into the string it names.
    pub fn resolve(&self, symbol: Symbol) -> (text: &str)
        requires
            symbol.id() < self@.len(),
        ensures
            text@ == self@[symbol.id() as int],
    {
        self.strings[symbol.0 as usize].as_str()
    }

    /// Whether `symbol` was issued by this registry, so that it can be resolved.
    pub fn knows(&self, symbol: Symbol) -> (b: bool)
        ensures
            b == (symbol.id() < self@.len()),
    {
        (symbol.0 as usize) < self.strings.len()
    }

    /// The number of interned strings.
    pub fn len(&self) -> (n: usize)
        ensures
            n == self@.len(),
    {
        self.strings.len()
    }
}

impl Default for SymbolRegistry {
    fn default() -> (r: SymbolRegistry)
        ensures
            r@ == Seq::<Seq<char>>::empty(),
    {
        SymbolRegistry::new()
    }
}

} // verus!
