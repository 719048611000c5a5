use crate::model::AmpliconError;
use vstd::prelude::*;

verus! {

/// ASCII `A`.
pub const BASE_A: u8 = 65;

/// ASCII `C`.
pub const BASE_C: u8 = 67;

/// ASCII `G`.
pub const BASE_G: u8 = 71;

/// ASCII `T`.
pub const BASE_T: u8 = 84;

/// One of the four canonical bases `A`, `C`, `G`, `T`.
pub open spec fn is_base(b: u8) -> bool {
    b == BASE_A || b == BASE_C || b == BASE_G || b == BASE_T
}

/// Every byte of `s` is a canonical base.
pub open spec fn is_dna(s: Seq<u8>) -> bool {
    forall|i: int| 0 <= i < s.len() ==> #[trigger] is_base(s[i])
}

/// Watson-Crick complement: `A` and `T` swap, `C` and `G` swap.
pub open spec fn complement(b: u8) -> u8 {
    if b == BASE_A {
        BASE_T
    } else if b == BASE_T {
        BASE_A
    } else if b == BASE_C {
        BASE_G
    } else if b == BASE_G {
        BASE_C
    } else {
        b
    }
}

/// `s` read backwards, each base complemented.
pub open spec fn reverse_complement_of(s: Seq<u8>) -> Seq<u8> {
    Seq::new(s.len(), |i: int| complement(s[s.len() - 1 - i]))
}

/// `e` reports the last byte of `s` that is not a canonical base.
pub open spec fn reports_unsupported_base(s: Seq<u8>, e: AmpliconError) -> bool {
    exists|k: int|
        0 <= k < s.len() && !is_base(#[trigger] s[k]) && (forall|j: int|
            k < j < s.len() ==> is_base(s[j])) && e == (AmpliconError::UnsupportedBaseError {
            base: s[k],
        })
}

/// The reverse complement of `seq`, or an error naming a byte that is not a
/// canonical base.
pub fn reverse_complement(seq: &[u8]) -> (r: Result<Vec<u8>, AmpliconError>)
    ensures
        is_dna(seq@) <==> r is Ok,
        r is Ok ==> r->Ok_0@ == reverse_complement_of(seq@),
        r is Err ==> reports_unsupported_base(seq@, r->Err_0),
{
    let mut out: Vec<u8> = Vec::new();
    let mut i: usize = seq.len();
    while i > 0
        invariant
            i <= seq@.len(),
            out@.len() == seq@.len() - i,
            forall|j: int| i <= j < seq@.len() ==> is_base(#[trigger] seq@[j]),
            forall|k: int|
                0 <= k < out@.len() ==> #[trigger] out@[k] == complement(seq@[seq@.len() - 1 - k]),
        decreases i,
    {
        i = i - 1;
        let b: u8 = seq[i];
        let c: u8 = if b == BASE_A {
            BASE_T
        } else if b == BASE_C {
            BASE_G
        } else if b == BASE_G {
            BASE_C
        } else if b == BASE_T {
            BASE_A
        } else {
            let e = AmpliconError::UnsupportedBaseError { base: b };
            assert(reports_unsupported_base(seq@, e)) by {
                assert(!is_base(seq@[i as int]));
            }
            return Err(e);
        };
        out.push(c);
    }
    assert(out@ =~= reverse_complement_of(seq@));
    Ok(out)
}

/// Taking the reverse complement twice gives back the sequence itself.
pub proof fn lemma_reverse_complement_involution(s: Seq<u8>)
    requires
        is_dna(s),
    ensures
        reverse_complement_of(reverse_complement_of(s)) == s,
{
    let rc = reverse_complement_of(s);
    assert forall|i: int| 0 <= i < s.len() implies #[trigger] reverse_complement_of(rc)[i] == s[i] by {
        assert(is_base(s[i]));
    }
    assert(reverse_complement_of(rc) =~= s);
}

/// A reverse complement of canonical bases holds canonical bases only.
pub proof fn lemma_reverse_complement_is_dna(s: Seq<u8>)
    requires
        is_dna(s),
    ensures
        is_dna(reverse_complement_of(s)),
{
    assert forall|i: int| 0 <= i < s.len() implies #[trigger] is_base(reverse_complement_of(s)[i]) by {
        assert(is_base(s[s.len() - 1 - i]));
    }
}

} // verus!
