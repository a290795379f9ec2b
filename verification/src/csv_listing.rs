//! The recorded files of a scenario, as they are offered for download.

use vstd::prelude::*;
use vstd::string::*;

verus! {

/// The order of texts: by their first characters that differ, a text before
/// those that go on behind it.
pub open spec fn text_le(a: Seq<char>, b: Seq<char>) -> bool
    decreases a.len(),
{
    if a.len() == 0 {
        true
    } else if b.len() == 0 {
        false
    } else if a[0] != b[0] {
        a[0] < b[0]
    } else {
        text_le(a.skip(1), b.skip(1))
    }
}

/// A file name ends in `.csv`.
pub open spec fn is_csv(name: Seq<char>) -> bool {
    name.len() >= 4 && name.skip(name.len() - 4) == ".csv"@
}

/// The texts of a list.
pub open spec fn texts(names: Seq<String>) -> Seq<Seq<char>> {
    names.map_values(|n: String| n@)
}

/// Picks the names of recorded files.
pub open spec fn recorded() -> spec_fn(Seq<char>) -> bool {
    |name: Seq<char>| is_csv(name)
}

/// No text stands before one that it comes after.
pub open spec fn in_order(names: Seq<Seq<char>>) -> bool {
    forall|i: int, j: int|
        0 <= i < j < names.len() ==> text_le(#[trigger] names[i], #[trigger] names[j])
}

fn not_after(a: &str, b: &str) -> (r: bool)
    ensures
        r == text_le(a@, b@),
{
    let n = a.unicode_len();
    let m = b.unicode_len();
    let mut i: usize = 0;
    assert(a@.skip(0) =~= a@ && b@.skip(0) =~= b@);
    while i < n && i < m
        invariant
            i <= n,
            i <= m,
            n == a@.len(),
            m == b@.len(),
            text_le(a@, b@) == text_le(a@.skip(i as int), b@.skip(i as int)),
        decreases n - i,
    {
        let x = a.get_char(i);
        let y = b.get_char(i);
        proof {
            assert(a@.skip(i as int)[0] == x);
            assert(b@.skip(i as int)[0] == y);
            assert(a@.skip(i as int).skip(1) =~= a@.skip(i + 1));
            assert(b@.skip(i as int).skip(1) =~= b@.skip(i + 1));
        }
        if x != y {
            return x < y;
        }
        i += 1;
    }
    i == n
}

fn is_recorded(name: &str) -> (r: bool)
    ensures
        r == is_csv(name@),
{
    let n = name.unicode_len();
    if n < 4 {
        return false;
    }
    crate::text::same_text(name.substring_char(n - 4, n), ".csv")
}

proof fn lemma_text_le_total(a: Seq<char>, b: Seq<char>)
    ensures
        text_le(a, b) || text_le(b, a),
    decreases a.len(),
{
    if a.len() > 0 && b.len() > 0 && a[0] == b[0] {
        lemma_text_le_total(a.skip(1), b.skip(1));
    }
}

proof fn lemma_text_le_transitive(a: Seq<char>, b: Seq<char>, c: Seq<char>)
    requires
        text_le(a, b),
        text_le(b, c),
    ensures
        text_le(a, c),
    decreases a.len(),
{
    if a.len() > 0 && b.len() > 0 && c.len() > 0 && a[0] == b[0] && b[0] == c[0] {
        lemma_text_le_transitive(a.skip(1), b.skip(1), c.skip(1));
    }
}

/// Two texts of which neither comes after the other are one.
pub proof fn law_text_order_is_strict(a: Seq<char>, b: Seq<char>)
    requires
        text_le(a, b),
        text_le(b, a),
    ensures
        a == b,
    decreases a.len(),
{
    if a.len() > 0 && b.len() > 0 {
        law_text_order_is_strict(a.skip(1), b.skip(1));
        assert(a =~= seq![a[0]] + a.skip(1));
        assert(b =~= seq![b[0]] + b.skip(1));
    } else {
        assert(a =~= b);
    }
}

proof fn lemma_insert_multiset(s: Seq<Seq<char>>, at: int, x: Seq<char>)
    requires
        0 <= at <= s.len(),
    ensures
        s.insert(at, x).to_multiset() == s.to_multiset().insert(x),
{
    broadcast use vstd::seq_lib::group_to_multiset_ensures;

    let t = s.insert(at, x);
    assert(t.remove(at) =~= s);
    assert(t[at] == x);
    assert(t.contains(x));
    assert(t.to_multiset().remove(x).insert(x) =~= t.to_multiset());
}

/// The names of the recorded files, in order.
pub fn csv_names(names: &Vec<String>) -> (r: Vec<String>)
    ensures
        texts(r@).to_multiset() == texts(names@).filter(recorded()).to_multiset(),
        in_order(texts(r@)),
{
    broadcast use vstd::seq_lib::group_to_multiset_ensures;

    let ghost all = texts(names@);
    let mut out: Vec<String> = Vec::new();
    let mut i: usize = 0;
    proof {
        reveal(Seq::filter);
        assert(all.take(0) =~= Seq::empty());
        assert(all.take(0).filter(recorded()) =~= Seq::empty());
        assert(texts(out@) =~= Seq::empty());
    }
    while i < names.len()
        invariant
            i <= names@.len(),
            all == texts(names@),
            in_order(texts(out@)),
            texts(out@).to_multiset() == all.take(i as int).filter(recorded()).to_multiset(),
        decreases names@.len() - i,
    {
        let name = &names[i];
        let ghost kept = all.take(i as int).filter(recorded());
        let ghost before = texts(out@);
        proof {
            assert(all.take(i + 1) =~= all.take(i as int).push(name@));
            all.take(i as int).lemma_filter_push(name@, recorded());
        }
        if is_recorded(name.as_str()) {
            let mut at: usize = out.len();
            while at > 0 && !not_after(out[at - 1].as_str(), name.as_str())
                invariant
                    at <= out@.len(),
                    before == texts(out@),
                    forall|k: int|
                        at <= k < before.len() ==> !text_le(#[trigger] before[k], name@),
                decreases at,
            {
                assert(before[at - 1] == out@[at - 1]@);
                at -= 1;
            }
            proof {
                if at > 0 {
                    assert(before[at - 1] == out@[at - 1]@);
                    assert(text_le(before[at - 1], name@));
                }
            }
            out.insert(at, name.clone());
            proof {
                let after = texts(out@);
                assert(after =~= before.insert(at as int, name@));
                lemma_insert_multiset(before, at as int, name@);
                vstd::seq_lib::to_multiset_build(kept, name@);
                assert(recorded()(name@));
                assert(all.take(i + 1).filter(recorded()) == kept.push(name@));
                assert forall|k: int, l: int| 0 <= k < l < after.len() implies text_le(
                    #[trigger] after[k],
                    #[trigger] after[l],
                ) by {
                    if k < at && l < at {
                        assert(text_le(before[k], before[l]));
                    } else if k < at && l == at {
                        if k < at - 1 {
                            assert(text_le(before[k], before[at - 1]));
                            lemma_text_le_transitive(before[k], before[at - 1], name@);
                        }
                    } else if k < at {
                        assert(text_le(before[k], before[l - 1]));
                    } else if k == at {
                        assert(!text_le(before[l - 1], name@));
                        lemma_text_le_total(before[l - 1], name@);
                    } else {
                        assert(text_le(before[k - 1], before[l - 1]));
                    }
                }
            }
        } else {
            assert(!recorded()(name@));
            assert(all.take(i + 1).filter(recorded()) == kept);
        }
        i += 1;
    }
    assert(all.take(all.len() as int) =~= all);
    out
}

} // verus!
