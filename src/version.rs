//! Version rank: semantic order first, the raw text as tie-break; and the
//! sorted, de-duplicated version lists built with it.
use vstd::prelude::*;

verus! {

/// How the `versions` crate orders two version strings: -1, 0 or 1.
pub uninterp spec fn semver_order(a: Seq<char>, b: Seq<char>) -> i8;

/// Relies on versions::Versioning::new and the Ord of Option<Versioning>:
/// the semantic order of two version strings, which, being an Ord, reverses
/// when the arguments are swapped.
#[verifier::external_body]
fn semver_cmp(a: &str, b: &str) -> (r: i8)
    ensures
        r == semver_order(a@, b@),
        -1 <= r <= 1,
        semver_order(b@, a@) == -r,
{
    match versions::Versioning::new(a).cmp(&versions::Versioning::new(b)) {
        std::cmp::Ordering::Less => -1,
        std::cmp::Ordering::Equal => 0,
        std::cmp::Ordering::Greater => 1,
    }
}

/// Lexicographic order of two strings, character by character: -1, 0 or 1.
pub open spec fn lex_order(a: Seq<char>, b: Seq<char>) -> i8
    decreases a.len(),
{
    if a.len() == 0 {
        if b.len() == 0 {
            0i8
        } else {
            -1i8
        }
    } else if b.len() == 0 {
        1i8
    } else if (a[0] as u32) < (b[0] as u32) {
        -1i8
    } else if (a[0] as u32) > (b[0] as u32) {
        1i8
    } else {
        lex_order(a.drop_first(), b.drop_first())
    }
}

pub proof fn lemma_lex_order(a: Seq<char>, b: Seq<char>)
    ensures
        lex_order(b, a) == -lex_order(a, b),
        lex_order(a, b) == 0 <==> a == b,
        -1 <= lex_order(a, b) <= 1,
    decreases a.len(),
{
    if a.len() > 0 && b.len() > 0 {
        lemma_lex_order(a.drop_first(), b.drop_first());
        vstd::utf8::char_u32_cast(a[0], a[0] as u32);
        vstd::utf8::char_u32_cast(b[0], b[0] as u32);
        if lex_order(a, b) == 0 {
            assert(a[0] == b[0]);
            assert(a.drop_first() == b.drop_first());
            assert forall|i: int| 0 <= i < a.len() implies a[i] == b[i] by {
                if i > 0 {
                    assert(a[i] == a.drop_first()[i - 1]);
                    assert(b[i] == b.drop_first()[i - 1]);
                }
            }
            assert(a =~= b);
        }
        if a == b {
            assert(a.drop_first() == b.drop_first());
        }
    } else if a.len() == 0 && b.len() == 0 {
        assert(a =~= b);
    }
}

/// Compares two strings character by character.
pub fn lex_compare(a: &str, b: &str) -> (r: i8)
    ensures
        r == lex_order(a@, b@),
{
    let n = a.unicode_len();
    let m = b.unicode_len();
    let mut i: usize = 0;
    assert(a@.subrange(0, n as int) =~= a@);
    assert(b@.subrange(0, m as int) =~= b@);
    while i < n && i < m
        invariant
            n == a@.len(),
            m == b@.len(),
            i <= n,
            i <= m,
            lex_order(a@, b@) == lex_order(a@.subrange(i as int, n as int), b@.subrange(i as int, m as int)),
        decreases n - i,
    {
        let x = a.get_char(i);
        let y = b.get_char(i);
        let ghost sa = a@.subrange(i as int, n as int);
        let ghost sb = b@.subrange(i as int, m as int);
        assert(sa[0] == x && sb[0] == y);
        if (x as u32) < (y as u32) {
            return -1;
        }
        if (x as u32) > (y as u32) {
            return 1;
        }
        assert(sa.drop_first() =~= a@.subrange(i + 1, n as int));
        assert(sb.drop_first() =~= b@.subrange(i + 1, m as int));
        i = i + 1;
    }
    if i == n && i == m {
        0
    } else if i == n {
        -1
    } else {
        1
    }
}

/// Version rank: the semantic order, and the raw text where that ties.
pub open spec fn rank_order(a: Seq<char>, b: Seq<char>) -> i8 {
    if semver_order(a, b) != 0 {
        semver_order(a, b)
    } else {
        lex_order(a, b)
    }
}

/// Compares two version strings by rank.
pub fn rank_compare(a: &str, b: &str) -> (r: i8)
    ensures
        r == rank_order(a@, b@),
        -1 <= r <= 1,
        rank_order(b@, a@) == -r,
        r == 0 <==> a@ == b@,
{
    let s = semver_cmp(a, b);
    proof {
        lemma_lex_order(a@, b@);
    }
    if s != 0 {
        proof {
            if a@ == b@ {
                assert(semver_order(a@, a@) == -semver_order(a@, a@));
            }
        }
        s
    } else {
        lex_compare(a, b)
    }
}

/// Strictly increasing by rank, pair by pair.
pub open spec fn rank_sorted(s: Seq<Seq<char>>) -> bool {
    forall|i: int| 0 <= i < s.len() - 1 ==> rank_order(#[trigger] s[i], s[i + 1]) == -1
}

pub open spec fn no_duplicates(s: Seq<Seq<char>>) -> bool {
    forall|i: int, j: int| 0 <= i < j < s.len() ==> s[i] != s[j]
}

proof fn lemma_push_to_set(s: Seq<Seq<char>>, x: Seq<char>)
    ensures
        s.push(x).to_set() == s.to_set().insert(x),
{
    assert forall|y: Seq<char>| s.push(x).to_set().contains(y) <==> s.to_set().insert(x).contains(y) by {
        if s.push(x).contains(y) && y != x {
            let i = choose|i: int| 0 <= i < s.len() + 1 && s.push(x)[i] == y;
            assert(s[i] == y);
        }
        if s.contains(y) {
            let i = choose|i: int| 0 <= i < s.len() && s[i] == y;
            assert(s.push(x)[i] == y);
        }
        if y == x {
            assert(s.push(x)[s.len() as int] == y);
        }
    }
    assert(s.push(x).to_set() =~= s.to_set().insert(x));
}

proof fn lemma_insert_keeps_sorted(before: Seq<Seq<char>>, j: int, v: Seq<char>)
    requires
        rank_sorted(before),
        0 <= j <= before.len(),
        j > 0 ==> rank_order(before[j - 1], v) == -1,
        j < before.len() ==> rank_order(v, before[j]) == -1,
    ensures
        rank_sorted(before.insert(j, v)),
{
    let after = before.insert(j, v);
    assert forall|i: int| 0 <= i < after.len() - 1 implies rank_order(#[trigger] after[i], after[i + 1]) == -1 by {
        if i < j - 1 {
            assert(after[i] == before[i] && after[i + 1] == before[i + 1]);
        } else if i > j {
            assert(after[i] == before[i - 1] && after[i + 1] == before[i]);
        }
    }
}

proof fn lemma_insert_keeps_distinct(before: Seq<Seq<char>>, j: int, v: Seq<char>)
    requires
        no_duplicates(before),
        !before.contains(v),
        0 <= j <= before.len(),
    ensures
        no_duplicates(before.insert(j, v)),
{
    let after = before.insert(j, v);
    assert forall|a: int, b: int| 0 <= a < b < after.len() implies after[a] != after[b] by {
        if a == j {
            assert(after[b] == before[b - 1]);
        } else if b == j {
            assert(after[a] == before[a]);
        } else {
            let a0 = if a < j { a } else { a - 1 };
            let b0 = if b < j { b } else { b - 1 };
            assert(after[a] == before[a0] && after[b] == before[b0]);
        }
    }
}

proof fn lemma_insert_to_set(before: Seq<Seq<char>>, j: int, v: Seq<char>)
    requires
        0 <= j <= before.len(),
    ensures
        before.insert(j, v).to_set() == before.to_set().insert(v),
{
    let after = before.insert(j, v);
    assert forall|x: Seq<char>| after.to_set().contains(x) <==> before.to_set().insert(v).contains(x) by {
        if after.contains(x) {
            let i = choose|i: int| 0 <= i < after.len() && after[i] == x;
            if i < j {
                assert(before[i] == x);
            } else if i > j {
                assert(before[i - 1] == x);
            }
        }
        if before.contains(x) {
            let i = choose|i: int| 0 <= i < before.len() && before[i] == x;
            if i < j {
                assert(after[i] == x);
            } else {
                assert(after[i + 1] == x);
            }
        }
        if x == v {
            assert(after[j] == v);
        }
    }
    assert(after.to_set() =~= before.to_set().insert(v));
}

/// Adds `v` to a rank-sorted list without duplicates, keeping it so.
pub fn insert_by_rank(list: &mut Vec<String>, v: String)
    requires
        rank_sorted(old(list)@.map_values(|s: String| s@)),
        no_duplicates(old(list)@.map_values(|s: String| s@)),
    ensures
        rank_sorted(final(list)@.map_values(|s: String| s@)),
        no_duplicates(final(list)@.map_values(|s: String| s@)),
        final(list)@.map_values(|s: String| s@).to_set() == old(list)@.map_values(|s: String| s@).to_set().insert(v@),
{
    let ghost before = list@.map_values(|s: String| s@);
    let mut k: usize = 0;
    while k < list.len()
        invariant
            k <= list.len(),
            list@.map_values(|s: String| s@) == before,
            rank_sorted(before),
            no_duplicates(before),
            forall|j: int| 0 <= j < k ==> before[j] != v@,
        decreases list.len() - k,
    {
        if list[k] == v {
            proof {
                assert(before[k as int] == v@);
                assert(before.to_set().insert(v@) =~= before.to_set());
            }
            return;
        }
        k = k + 1;
    }
    let mut j: usize = 0;
    while j < list.len() && rank_compare(list[j].as_str(), v.as_str()) == -1
        invariant
            j <= list.len(),
            list@.map_values(|s: String| s@) == before,
            j > 0 ==> rank_order(before[j - 1], v@) == -1,
        decreases list.len() - j,
    {
        j = j + 1;
    }
    if j < list.len() {
        let c = rank_compare(list[j].as_str(), v.as_str());
        assert(before[j as int] == list@[j as int]@);
        assert(c != 0);
    }
    proof {
        lemma_insert_keeps_sorted(before, j as int, v@);
        lemma_insert_keeps_distinct(before, j as int, v@);
        lemma_insert_to_set(before, j as int, v@);
    }
    let ghost vv = v@;
    list.insert(j, v);
    assert(list@.map_values(|s: String| s@) =~= before.insert(j as int, vv));
}

/// The versions of `vs`, each once, strictly increasing by rank.
pub fn sort_versions(vs: Vec<String>) -> (r: Vec<String>)
    ensures
        rank_sorted(r@.map_values(|s: String| s@)),
        no_duplicates(r@.map_values(|s: String| s@)),
        r@.map_values(|s: String| s@).to_set() == vs@.map_values(|s: String| s@).to_set(),
{
    let ghost input = vs@.map_values(|s: String| s@);
    let mut out: Vec<String> = Vec::new();
    let mut i: usize = 0;
    assert(out@.map_values(|s: String| s@).to_set() =~= input.subrange(0, 0).to_set());
    while i < vs.len()
        invariant
            i <= vs.len(),
            input == vs@.map_values(|s: String| s@),
            rank_sorted(out@.map_values(|s: String| s@)),
            no_duplicates(out@.map_values(|s: String| s@)),
            out@.map_values(|s: String| s@).to_set() == input.subrange(0, i as int).to_set(),
        decreases vs.len() - i,
    {
        insert_by_rank(&mut out, vs[i].clone());
        proof {
            assert(input.subrange(0, i + 1) == input.subrange(0, i as int).push(input[i as int]));
            lemma_push_to_set(input.subrange(0, i as int), input[i as int]);
        }
        i = i + 1;
    }
    assert(input.subrange(0, vs.len() as int) == input);
    out
}

} // verus!
