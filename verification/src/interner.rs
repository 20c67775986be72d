//! The string pools of an AST (identifiers, literals, whitespace runs) are
//! `string_interner` interners. This module declares the interner type to
//! Verus and gives its operations contracts over a model of its contents:
//! the sequence of distinct strings interned so far, in the order they were
//! first interned.
use string_interner::backend::StringBackend;
use string_interner::StringInterner;
use vstd::prelude::*;
use vstd::utf8::*;
use vstd::string::StringSliceAdditionalSpecFns;

verus! {

/// A `string_interner` interner whose symbols are plain `usize` indices.
/// Verus does not accept a declaration of the generic interner type, so it
/// is held here, out of Verus's sight, and reached only through the
/// functions below.
#[verifier::external_body]
pub struct Interner {
    pool: StringInterner<StringBackend<usize>>,
}

/// The strings held by an interner, indexed by symbol.
pub uninterp spec fn interned(interner: &Interner) -> Seq<Seq<char>>;

/// `StringInterner::new`: the new interner holds no strings.
#[verifier::external_body]
pub(crate) fn interner_new() -> (interner: Interner)
    ensures
        interned(&interner) == Seq::<Seq<char>>::empty(),
{
    Interner { pool: StringInterner::new() }
}

/// `StringInterner::get_or_intern`: if the string is already held, its
/// symbol is returned and nothing changes; otherwise it is appended and its
/// symbol is the next index (the `StringBackend` hands out symbols in
/// order, and a `usize` symbol is the index itself).
#[verifier::external_body]
pub(crate) fn interner_get_or_intern(interner: &mut Interner, string: &str) -> (symbol: usize)
    ensures
        interned(old(interner)).contains(string@) ==> {
            &&& interned(final(interner)) == interned(old(interner))
            &&& symbol < interned(old(interner)).len()
            &&& interned(old(interner))[symbol as int] == string@
        },
        !interned(old(interner)).contains(string@) ==> {
            &&& interned(final(interner)) == interned(old(interner)).push(string@)
            &&& symbol == interned(old(interner)).len()
        },
{
    interner.pool.get_or_intern(string)
}

/// `StringInterner::resolve`: the string held under a symbol, if any.
#[verifier::external_body]
pub(crate) fn interner_resolve(interner: &Interner, symbol: usize) -> (string: Option<&str>)
    ensures
        string is Some <==> symbol < interned(interner).len(),
        string matches Some(s) ==> s@ == interned(interner)[symbol as int],
{
    interner.pool.resolve(symbol)
}

/// `std::str::from_utf8`: succeeds exactly on valid UTF-8, and the string
/// then has the same bytes.
#[verifier::external_body]
pub(crate) fn utf8_str(bytes: &[u8]) -> (s: Option<&str>)
    ensures
        s is Some <==> valid_utf8(bytes@),
        s matches Some(s) ==> s.spec_bytes() == bytes@,
{
    std::str::from_utf8(bytes).ok()
}

/// No string is held twice.
pub open spec fn all_distinct(strings: Seq<Seq<char>>) -> bool {
    forall|i: int, j: int| 0 <= i < strings.len() && 0 <= j < strings.len() && i != j ==> strings[i] != strings[j]
}

/// Interning into a pool whose strings are distinct keeps them distinct,
/// and the returned symbol holds the interned string.
pub fn intern(interner: &mut Interner, string: &str) -> (symbol: usize)
    requires
        all_distinct(interned(old(interner))),
    ensures
        all_distinct(interned(final(interner))),
        symbol < interned(final(interner)).len(),
        interned(final(interner))[symbol as int] == string@,
        interned(final(interner)).len() <= interned(old(interner)).len() + 1,
        interned(old(interner)).is_prefix_of(interned(final(interner))),
        interned(old(interner)).contains(string@) ==> interned(final(interner)) == interned(old(interner)),
        !interned(old(interner)).contains(string@) ==> interned(final(interner)) == interned(old(interner)).push(string@),
{
    let symbol = interner_get_or_intern(interner, string);
    proof {
        let o = interned(old(interner));
        let n = interned(interner);
        if !o.contains(string@) {
            assert forall|i: int, j: int| 0 <= i < n.len() && 0 <= j < n.len() && i != j implies n[i] != n[j] by {
                if i == o.len() as int {
                    assert(o[j] == n[j]);
                } else if j == o.len() as int {
                    assert(o[i] == n[i]);
                } else {
                    assert(o[i] == n[i] && o[j] == n[j]);
                }
            }
            assert(o.is_prefix_of(n)) by {
                assert forall|k: int| 0 <= k < o.len() implies o[k] == n[k] by {}
            }
        }
    }
    symbol
}

} // verus!
