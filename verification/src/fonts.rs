//! The font families installed on this machine, as the system's font
//! registry lists them (Core Text on macOS, fontconfig on Linux, through
//! `font-kit`), in order and without repeats.
use vstd::prelude::*;

use font_kit::source::SystemSource;

use crate::ghostty_import::{lemma_lex_total, lemma_lex_trans, lex_le};
use crate::text::chars_of;

verus! {

// ---------------------------------------------------------------------------
// Outside items
// ---------------------------------------------------------------------------

/// `font-kit`'s handle on the system font registry.
#[verifier::external_type_specification]
#[verifier::external_body]
pub struct ExSystemSource(SystemSource);

/// `SystemSource::new`: opens the system font registry. Nothing is stated
/// of it.
#[verifier::external_body]
fn open_system_source() -> (r: SystemSource) {
    SystemSource::new()
}

/// `SystemSource::all_families`: the names of the installed font families,
/// or the registry's error as text. What it lists depends on the machine,
/// so nothing is stated of the names.
#[verifier::external_body]
fn system_families(source: &SystemSource) -> (r: Result<Vec<String>, String>) {
    source.all_families().map_err(|e| e.to_string())
}

// ---------------------------------------------------------------------------
// Specifications
// ---------------------------------------------------------------------------

/// Is `a` ordered strictly before `b`?
pub open spec fn lex_lt(a: Seq<char>, b: Seq<char>) -> bool {
    lex_le(a, b) && a != b
}

/// Are the names in strictly increasing order (so none repeats)?
pub open spec fn strictly_sorted(v: Seq<String>) -> bool {
    forall|i: int, j: int| 0 <= i < j < v.len() ==> lex_lt(#[trigger] v[i]@, #[trigger] v[j]@)
}

/// Does `v` hold a name equal to `n`?
pub open spec fn holds_name(v: Seq<String>, n: Seq<char>) -> bool {
    exists|i: int| 0 <= i < v.len() && (#[trigger] v[i])@ == n
}

// ---------------------------------------------------------------------------
// Lemmas
// ---------------------------------------------------------------------------

/// Every text is ordered before or equal to itself.
proof fn lemma_lex_refl(a: Seq<char>)
    ensures
        lex_le(a, a),
{
    lemma_lex_total(a, a);
}

/// Two texts each ordered before or equal to the other are equal.
proof fn lemma_lex_antisym(a: Seq<char>, b: Seq<char>)
    requires
        lex_le(a, b),
        lex_le(b, a),
    ensures
        a == b,
    decreases a.len(),
{
    if a.len() == 0 {
        assert(a =~= b);
    } else if a[0] == b[0] {
        lemma_lex_antisym(a.drop_first(), b.drop_first());
        assert(a =~= seq![a[0]] + a.drop_first());
        assert(b =~= seq![b[0]] + b.drop_first());
    }
}

/// Chaining an ordering with a strict one gives a strict one.
proof fn lemma_lex_lt_chain(a: Seq<char>, b: Seq<char>, c: Seq<char>)
    ensures
        lex_lt(a, b) && lex_le(b, c) ==> lex_lt(a, c),
        lex_le(a, b) && lex_lt(b, c) ==> lex_lt(a, c),
{
    if lex_le(a, b) && lex_le(b, c) {
        lemma_lex_trans(a, b, c);
        if a == c {
            lemma_lex_antisym(a, b);
            lemma_lex_antisym(b, c);
        }
    }
}

// ---------------------------------------------------------------------------
// Executable code
// ---------------------------------------------------------------------------

/// Do two names hold the same text?
fn same_name(a: &String, b: &String) -> (r: bool)
    ensures
        r == (a@ == b@),
{
    let x = chars_of(a.as_str());
    let y = chars_of(b.as_str());
    crate::text::same_chars(&x, &y)
}

/// Is `a` ordered before or equal to `b`?
fn name_le(a: &String, b: &String) -> (r: bool)
    ensures
        r == lex_le(a@, b@),
{
    let x = chars_of(a.as_str());
    let y = chars_of(b.as_str());
    let mut i: usize = 0;
    assert(x@.skip(0) =~= x@);
    assert(y@.skip(0) =~= y@);
    while i < x.len() && i < y.len() && x[i] == y[i]
        invariant
            i <= x.len(),
            i <= y.len(),
            lex_le(x@, y@) == lex_le(x@.skip(i as int), y@.skip(i as int)),
        decreases x.len() - i,
    {
        assert(x@.skip(i as int).drop_first() =~= x@.skip(i + 1));
        assert(y@.skip(i as int).drop_first() =~= y@.skip(i + 1));
        i = i + 1;
    }
    if i == x.len() {
        true
    } else if i == y.len() {
        false
    } else {
        x[i] < y[i]
    }
}

/// The names in order with repeats dropped (`sort` then `dedup`): strictly
/// increasing, holding exactly the names given.
pub fn sorted_families(families: Vec<String>) -> (r: Vec<String>)
    ensures
        strictly_sorted(r@),
        forall|n: Seq<char>| holds_name(r@, n) <==> holds_name(families@, n),
{
    let mut r: Vec<String> = Vec::new();
    let mut k: usize = 0;
    while k < families.len()
        invariant
            k <= families.len(),
            strictly_sorted(r@),
            forall|n: Seq<char>| holds_name(r@, n) <==> holds_name(families@.take(k as int), n),
        decreases families.len() - k,
    {
        let f = &families[k];
        let mut j: usize = 0;
        while j < r.len() && name_le(&r[j], f)
            invariant
                j <= r.len(),
                forall|q: int| 0 <= q < j ==> lex_le(#[trigger] r@[q]@, f@),
            decreases r.len() - j,
        {
            j = j + 1;
        }
        proof {
            if j < r.len() {
                lemma_lex_total(r@[j as int]@, f@);
                lemma_lex_refl(f@);
            }
            assert forall|q: int| j <= q < r.len() implies lex_lt(f@, #[trigger] r@[q]@) by {
                if q > j {
                    lemma_lex_trans(f@, r@[j as int]@, r@[q]@);
                    assert(lex_lt(r@[j as int]@, r@[q]@));
                    if f@ == r@[q]@ {
                        lemma_lex_total(r@[j as int]@, f@);
                    }
                }
            }
            assert(families@.take(k + 1) =~= families@.take(k as int).push(families@[k as int]));
        }
        let ghost before = r@;
        let repeat = j > 0 && same_name(&r[j - 1], f);
        if repeat {
            proof {
                assert forall|n: Seq<char>| holds_name(r@, n) <==> holds_name(families@.take(k + 1), n) by {
                    let t = families@.take(k + 1);
                    if holds_name(t, n) {
                        let i = choose|i: int| 0 <= i < t.len() && (#[trigger] t[i])@ == n;
                        if i < k {
                            assert(families@.take(k as int)[i] == t[i]);
                        } else {
                            assert(r@[j - 1]@ == n);
                        }
                    }
                    if holds_name(r@, n) {
                        assert(holds_name(families@.take(k as int), n));
                        let i = choose|i: int| 0 <= i < k && (#[trigger] families@.take(k as int)[i])@ == n;
                        assert(t[i] == families@.take(k as int)[i]);
                    }
                }
            }
        } else {
            r.insert(j, f.clone());
            proof {
                if j > 0 {
                    assert(lex_le(before[j - 1]@, f@));
                }
                assert forall|q: int| 0 <= q < j implies lex_lt(#[trigger] before[q]@, f@) by {
                    if q < j - 1 {
                        assert(lex_lt(before[q]@, before[j - 1]@));
                        lemma_lex_lt_chain(before[q]@, before[j - 1]@, f@);
                    }
                }
                assert forall|a: int, b: int| 0 <= a < b < r@.len() implies lex_lt(#[trigger] r@[a]@, #[trigger] r@[b]@) by {
                    if b == j {
                        assert(r@[a] == before[a]);
                    } else if a == j {
                        assert(r@[b] == before[b - 1]);
                    } else if b < j {
                        assert(r@[a] == before[a]);
                        assert(r@[b] == before[b]);
                    } else if a < j {
                        assert(r@[a] == before[a]);
                        assert(r@[b] == before[b - 1]);
                        lemma_lex_lt_chain(r@[a]@, f@, r@[b]@);
                        lemma_lex_refl(r@[b]@);
                        assert(lex_le(r@[a]@, f@));
                    } else {
                        assert(r@[a] == before[a - 1]);
                        assert(r@[b] == before[b - 1]);
                    }
                }
                assert forall|n: Seq<char>| holds_name(r@, n) <==> holds_name(families@.take(k + 1), n) by {
                    let t = families@.take(k + 1);
                    if holds_name(t, n) {
                        let i = choose|i: int| 0 <= i < t.len() && (#[trigger] t[i])@ == n;
                        if i < k {
                            assert(families@.take(k as int)[i] == t[i]);
                            assert(holds_name(before, n));
                            let q = choose|q: int| 0 <= q < before.len() && (#[trigger] before[q])@ == n;
                            if q < j {
                                assert(r@[q] == before[q]);
                            } else {
                                assert(r@[q + 1] == before[q]);
                            }
                        } else {
                            assert(r@[j as int]@ == n);
                        }
                    }
                    if holds_name(r@, n) {
                        let q = choose|q: int| 0 <= q < r@.len() && (#[trigger] r@[q])@ == n;
                        if q == j {
                            assert(t[k as int] == families@[k as int]);
                        } else {
                            let p = if q < j { q } else { q - 1 };
                            assert(before[p]@ == n);
                            assert(holds_name(before, n));
                            assert(holds_name(families@.take(k as int), n));
                            let i = choose|i: int| 0 <= i < k && (#[trigger] families@.take(k as int)[i])@ == n;
                            assert(t[i] == families@.take(k as int)[i]);
                        }
                    }
                }
            }
        }
        k = k + 1;
    }
    assert(families@.take(families.len() as int) =~= families@);
    r
}

/// Every font family installed on this machine, in order and without
/// repeats; the registry's error, as text, when it can't be read.
pub fn list_font_families() -> (r: Result<Vec<String>, String>)
    ensures
        r matches Ok(v) ==> strictly_sorted(v@),
{
    let source = open_system_source();
    match system_families(&source) {
        Ok(families) => Ok(sorted_families(families)),
        Err(e) => Err(e),
    }
}

} // verus!
