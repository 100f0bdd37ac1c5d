//! Lexicographic order on entry names, and sorted insertion of pages.
//!
//! Extraction returns pages sorted by name ascending; that order is the
//! canonical page order for every later stage.

use vstd::prelude::*;
use vstd::string::StrSliceExecFns;

use crate::assets::{images_view, ImageFile, ImageView};

verus! {

/// Lexicographic order on character sequences, by code point: `a` comes
/// at or before `b`.
pub open spec fn lex_le(a: Seq<char>, b: Seq<char>) -> bool
    decreases a.len(),
{
    if a.len() == 0 {
        true
    } else if b.len() == 0 {
        false
    } else if (a[0] as u32) == (b[0] as u32) {
        lex_le(a.drop_first(), b.drop_first())
    } else {
        (a[0] as u32) < (b[0] as u32)
    }
}

/// Any two character sequences are ordered one way or the other.
pub proof fn lemma_lex_le_total(a: Seq<char>, b: Seq<char>)
    ensures
        lex_le(a, b) || lex_le(b, a),
    decreases a.len(),
{
    if a.len() > 0 && b.len() > 0 && (a[0] as u32) == (b[0] as u32) {
        lemma_lex_le_total(a.drop_first(), b.drop_first());
    }
}

/// The lexicographic order is transitive.
pub proof fn lemma_lex_le_trans(a: Seq<char>, b: Seq<char>, c: Seq<char>)
    requires
        lex_le(a, b),
        lex_le(b, c),
    ensures
        lex_le(a, c),
    decreases a.len(),
{
    if a.len() > 0 && b.len() > 0 && c.len() > 0 && (a[0] as u32) == (b[0] as u32) && (b[0]
        as u32) == (c[0] as u32) {
        lemma_lex_le_trans(a.drop_first(), b.drop_first(), c.drop_first());
    }
}

/// Compare two strings in lexicographic order by code point.
pub fn str_lex_le(a: &str, b: &str) -> (r: bool)
    ensures
        r == lex_le(a@, b@),
{
    let an = a.unicode_len();
    let bn = b.unicode_len();
    let mut i: usize = 0;
    proof {
        assert(a@.skip(0) =~= a@);
        assert(b@.skip(0) =~= b@);
    }
    while i < an && i < bn
        invariant
            i <= an <= usize::MAX,
            i <= bn,
            an == a@.len(),
            bn == b@.len(),
            lex_le(a@, b@) == lex_le(a@.skip(i as int), b@.skip(i as int)),
        decreases an - i,
    {
        let ca = a.get_char(i) as u32;
        let cb = b.get_char(i) as u32;
        proof {
            assert(a@.skip(i as int)[0] == a@[i as int]);
            assert(b@.skip(i as int)[0] == b@[i as int]);
            assert(a@.skip(i as int).drop_first() =~= a@.skip(i + 1));
            assert(b@.skip(i as int).drop_first() =~= b@.skip(i + 1));
        }
        if ca != cb {
            return ca < cb;
        }
        i = i + 1;
    }
    proof {
        if i >= an {
            assert(a@.skip(i as int).len() == 0);
        } else {
            assert(b@.skip(i as int).len() == 0);
            assert(a@.skip(i as int).len() > 0);
        }
    }
    an <= bn
}

/// Compare two strings for equality of their characters.
pub fn str_eq(a: &str, b: &str) -> (r: bool)
    ensures
        r == (a@ == b@),
{
    let an = a.unicode_len();
    let bn = b.unicode_len();
    if an != bn {
        return false;
    }
    let mut i: usize = 0;
    while i < an
        invariant
            i <= an,
            an == a@.len() == b@.len(),
            forall|m: int| 0 <= m < i ==> a@[m] == b@[m],
        decreases an - i,
    {
        if a.get_char(i) != b.get_char(i) {
            return false;
        }
        i = i + 1;
    }
    proof {
        assert(a@ =~= b@);
    }
    true
}

/// Whether a page sequence is sorted by name ascending.
pub open spec fn sorted_by_name(s: Seq<ImageView>) -> bool {
    forall|i: int, j: int| 0 <= i < j < s.len() ==> lex_le(s[i].name, s[j].name)
}

/// A page inserted into a name-sorted sequence: after every page whose
/// name comes at or before its own, before the rest.
pub open spec fn insert_by_name(s: Seq<ImageView>, x: ImageView) -> Seq<ImageView>
    decreases s.len(),
{
    if s.len() == 0 {
        seq![x]
    } else if lex_le(s[0].name, x.name) {
        seq![s[0]] + insert_by_name(s.drop_first(), x)
    } else {
        seq![x] + s
    }
}

/// A page sequence sorted by name ascending, by repeated insertion.
pub open spec fn sort_by_name(s: Seq<ImageView>) -> Seq<ImageView>
    decreases s.len(),
{
    if s.len() == 0 {
        Seq::empty()
    } else {
        insert_by_name(sort_by_name(s.drop_last()), s.last())
    }
}

/// Inserting into a sorted sequence at the position `p` that closes the
/// prefix of pages at or before `x` splits the sequence around `x`.
proof fn lemma_insert_by_name_at(s: Seq<ImageView>, x: ImageView, p: int)
    requires
        0 <= p <= s.len(),
        forall|m: int| 0 <= m < p ==> lex_le(#[trigger] s[m].name, x.name),
        p < s.len() ==> !lex_le(s[p].name, x.name),
    ensures
        insert_by_name(s, x) == s.take(p) + seq![x] + s.skip(p),
    decreases s.len(),
{
    if p == 0 {
        if s.len() == 0 {
            assert(insert_by_name(s, x) =~= s.take(0) + seq![x] + s.skip(0));
        } else {
            assert(insert_by_name(s, x) =~= s.take(0) + seq![x] + s.skip(0));
        }
    } else {
        let d = s.drop_first();
        assert(lex_le(s[0].name, x.name));
        assert(forall|m: int| 0 <= m < p - 1 ==> lex_le(#[trigger] d[m].name, x.name)) by {
            assert(forall|m: int| 0 <= m < p - 1 ==> d[m] == s[m + 1]);
        }
        assert(p - 1 < d.len() ==> !lex_le(d[p - 1].name, x.name));
        lemma_insert_by_name_at(d, x, p - 1);
        assert(seq![s[0]] + (d.take(p - 1) + seq![x] + d.skip(p - 1)) =~= s.take(p) + seq![x]
            + s.skip(p));
    }
}

/// Insert a page into a name-sorted vector, keeping it sorted; the
/// contents afterwards are the contents before with the new page
/// inserted at its position.
pub fn insert_sorted(v: &mut Vec<ImageFile>, x: ImageFile)
    requires
        sorted_by_name(images_view(old(v)@)),
    ensures
        sorted_by_name(images_view(final(v)@)),
        images_view(final(v)@) == insert_by_name(images_view(old(v)@), x@),
        images_view(final(v)@).to_multiset() == images_view(old(v)@).to_multiset().insert(x@),
        final(v)@.len() == old(v)@.len() + 1,
{
    broadcast use vstd::seq_lib::group_to_multiset_ensures;

    let ghost s0 = images_view(v@);
    let mut j = v.len();
    while j > 0 && !str_lex_le(v[j - 1].file_name.as_str(), x.file_name.as_str())
        invariant
            j <= v@.len(),
            v@.len() == s0.len(),
            images_view(v@) == s0,
            sorted_by_name(s0),
            forall|m: int| j <= m < s0.len() ==> !lex_le(#[trigger] s0[m].name, x@.name),
        decreases j,
    {
        j = j - 1;
    }
    let ghost jj = j as int;
    v.insert(j, x);
    proof {
        let s1 = images_view(v@);
        assert(s1 =~= s0.insert(jj, x@));
        assert forall|m: int| jj <= m < s0.len() implies lex_le(x@.name, #[trigger] s0[m].name) by {
            lemma_lex_le_total(s0[m].name, x@.name);
        }
        assert forall|m: int| 0 <= m < jj implies lex_le(#[trigger] s0[m].name, x@.name) by {
            assert(jj > 0 && lex_le(s0[jj - 1].name, x@.name));
            if m < jj - 1 {
                lemma_lex_le_trans(s0[m].name, s0[jj - 1].name, x@.name);
            }
        }
        assert forall|p: int, q: int| 0 <= p < q < s1.len() implies lex_le(
            s1[p].name,
            s1[q].name,
        ) by {
            if q < jj {
                assert(s1[p] == s0[p] && s1[q] == s0[q]);
            } else if p > jj {
                assert(s1[p] == s0[p - 1] && s1[q] == s0[q - 1]);
            } else if p == jj {
                assert(s1[p] == x@ && s1[q] == s0[q - 1]);
            } else if q == jj {
                assert(s1[q] == x@ && s1[p] == s0[p]);
            } else {
                assert(p < jj && q > jj);
                assert(s1[p] == s0[p] && s1[q] == s0[q - 1]);
                lemma_lex_le_trans(s0[p].name, x@.name, s0[q - 1].name);
            }
        }
        lemma_insert_by_name_at(s0, x@, jj);
        assert(s0.take(jj) + seq![x@] + s0.skip(jj) =~= s0.insert(jj, x@));
        assert(s1.remove(jj) =~= s0);
        assert(s1.remove(jj).to_multiset() =~= s1.to_multiset().remove(s1[jj]));
        assert(s1[jj] == x@);
        assert(s1.to_multiset().contains(x@)) by {
            assert(s1[jj] == x@);
            assert(s1.contains(x@));
        }
        assert(s1.to_multiset() =~= s0.to_multiset().insert(x@)) by {
            assert(s0.to_multiset() == s1.to_multiset().remove(x@));
        }
    }
}

} // verus!
