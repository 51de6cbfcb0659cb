//! Paths as `/`-separated strings, read component by component the way
//! `std::path::Path::components` reads them on Unix.
use vstd::prelude::*;

use crate::request::str_eq;

verus! {

/// The pieces of `s` between its `/` characters (one more piece than there
/// are slashes).
pub open spec fn split_slash(s: Seq<char>) -> Seq<Seq<char>>
    decreases s.len(),
{
    if s.len() == 0 {
        seq![seq![]]
    } else {
        let p = split_slash(s.drop_last());
        if s.last() == '/' {
            p.push(seq![])
        } else {
            p.update(p.len() - 1, p.last().push(s.last()))
        }
    }
}

pub open spec fn is_absolute(s: Seq<char>) -> bool {
    s.len() > 0 && s[0] == '/'
}

/// Whether piece number `idx` of a path is a component: empty pieces and `.`
/// pieces are dropped, except a leading `.` of a relative path.
pub open spec fn keeps_piece(piece: Seq<char>, idx: int) -> bool {
    piece.len() > 0 && (piece != seq!['.'] || idx == 0)
}

/// The components among the first `n` pieces.
pub open spec fn kept_pieces(pieces: Seq<Seq<char>>, n: int) -> Seq<Seq<char>>
    decreases n,
{
    if n <= 0 {
        seq![]
    } else if keeps_piece(pieces[n - 1], n - 1) {
        kept_pieces(pieces, n - 1).push(pieces[n - 1])
    } else {
        kept_pieces(pieces, n - 1)
    }
}

/// The components of path `s`: a root `/` for an absolute path, then its
/// non-empty pieces, without `.` pieces past the first.
pub open spec fn components(s: Seq<char>) -> Seq<Seq<char>> {
    let pieces = split_slash(s);
    if is_absolute(s) {
        seq![seq!['/']] + kept_pieces(pieces, pieces.len() as int)
    } else {
        kept_pieces(pieces, pieces.len() as int)
    }
}

proof fn lemma_kept_prefix(a: Seq<Seq<char>>, b: Seq<Seq<char>>, n: int)
    requires
        0 <= n <= a.len(),
        n <= b.len(),
        a.subrange(0, n) == b.subrange(0, n),
    ensures
        kept_pieces(a, n) == kept_pieces(b, n),
    decreases n,
{
    if n > 0 {
        assert(a[n - 1] == a.subrange(0, n)[n - 1]);
        assert(b[n - 1] == b.subrange(0, n)[n - 1]);
        assert(a.subrange(0, n - 1) == a.subrange(0, n).subrange(0, n - 1));
        assert(b.subrange(0, n - 1) == b.subrange(0, n).subrange(0, n - 1));
        lemma_kept_prefix(a, b, n - 1);
    }
}

proof fn lemma_split_len(s: Seq<char>)
    ensures
        1 <= split_slash(s).len() <= s.len() + 1,
    decreases s.len(),
{
    if s.len() > 0 {
        lemma_split_len(s.drop_last());
    }
}

/// The components of a path, in order.
pub fn path_components(s: &str) -> (r: Vec<String>)
    ensures
        r@.map_values(|c: String| c@) == components(s@),
{
    let n = s.unicode_len();
    let mut out: Vec<String> = Vec::new();
    let absolute = n > 0 && s.get_char(0) == '/';
    if absolute {
        proof {
            reveal_strlit("/");
            assert("/"@ =~= seq!['/']);
        }
        out.push("/".to_owned());
    }
    let ghost base: Seq<Seq<char>> = if absolute { seq![seq!['/']] } else { seq![] };
    assert(out@.map_values(|c: String| c@) =~= base);
    let mut start: usize = 0;
    let mut piece_idx: usize = 0;
    let mut i: usize = 0;
    while i < n
        invariant
            n == s@.len(),
            start <= i <= n,
            piece_idx <= i,
            absolute == is_absolute(s@),
            base == (if absolute { seq![seq!['/']] } else { Seq::<Seq<char>>::empty() }),
            split_slash(s@.subrange(0, i as int)).len() == piece_idx + 1,
            split_slash(s@.subrange(0, i as int)).last() == s@.subrange(start as int, i as int),
            out@.map_values(|c: String| c@) == base + kept_pieces(
                split_slash(s@.subrange(0, i as int)),
                piece_idx as int,
            ),
        decreases n - i,
    {
        let ghost pre = s@.subrange(0, i as int);
        let ghost next = s@.subrange(0, i + 1);
        assert(next.drop_last() == pre);
        let c = s.get_char(i);
        if c == '/' {
            let piece = s.substring_char(start, i);
            let keep = piece.unicode_len() > 0 && (!str_eq(piece, ".") || piece_idx == 0);
            proof {
                reveal_strlit(".");
                assert("."@ =~= seq!['.']);
                assert(split_slash(next) == split_slash(pre).push(seq![]));
                assert(split_slash(next).subrange(0, piece_idx as int) =~= split_slash(pre).subrange(0, piece_idx as int));
                lemma_kept_prefix(split_slash(next), split_slash(pre), piece_idx as int);
                assert(split_slash(next)[piece_idx as int] == piece@);
                assert(keep == keeps_piece(piece@, piece_idx as int));
            }
            if keep {
                out.push(piece.to_owned());
            }
            proof {
                let m = |c: String| c@;
                if keep {
                    assert(out@.map_values(m) =~= (base + kept_pieces(split_slash(pre), piece_idx as int)).push(piece@));
                }
                assert(out@.map_values(m) =~= base + kept_pieces(split_slash(next), piece_idx + 1));
            }
            piece_idx = piece_idx + 1;
            start = i + 1;
        } else {
            proof {
                lemma_split_len(pre);
                let p = split_slash(pre);
                assert(split_slash(next) == p.update(p.len() - 1, p.last().push(c)));
                assert(split_slash(next).subrange(0, piece_idx as int) =~= p.subrange(0, piece_idx as int));
                lemma_kept_prefix(split_slash(next), p, piece_idx as int);
                assert(s@.subrange(start as int, i + 1) =~= s@.subrange(start as int, i as int).push(c));
            }
        }
        i = i + 1;
    }
    let piece = s.substring_char(start, n);
    let keep = piece.unicode_len() > 0 && (!str_eq(piece, ".") || piece_idx == 0);
    proof {
        reveal_strlit(".");
        assert("."@ =~= seq!['.']);
        assert(s@.subrange(0, n as int) == s@);
        lemma_split_len(s@);
    }
    if keep {
        out.push(piece.to_owned());
    }
    proof {
        let p = split_slash(s@);
        let m = |c: String| c@;
        assert(keep == keeps_piece(p[piece_idx as int], piece_idx as int));
        if keep {
            assert(out@.map_values(m) =~= (base + kept_pieces(p, piece_idx as int)).push(piece@));
        }
        assert(out@.map_values(m) =~= base + kept_pieces(p, piece_idx + 1));
        assert(components(s@) == base + kept_pieces(p, p.len() as int));
    }
    out
}

} // verus!

verus! {

/// `base` joined with `name`: an absolute `name` replaces `base`; otherwise a
/// `/` separates them unless `base` is empty or already ends in one.
pub open spec fn join_spec(base: Seq<char>, name: Seq<char>) -> Seq<char> {
    if is_absolute(name) {
        name
    } else if base.len() == 0 || base.last() == '/' {
        base + name
    } else {
        base + seq!['/'] + name
    }
}

/// Joins a path and a relative name.
pub fn join(base: &str, name: &str) -> (r: String)
    ensures
        r@ == join_spec(base@, name@),
{
    let n = name.unicode_len();
    if n > 0 && name.get_char(0) == '/' {
        return name.to_owned();
    }
    let b = base.unicode_len();
    if b == 0 || base.get_char(b - 1) == '/' {
        base.to_owned().concat(name)
    } else {
        proof {
            reveal_strlit("/");
        }
        let r = base.to_owned().concat("/").concat(name);
        assert(r@ =~= base@ + seq!['/'] + name@);
        r
    }
}

} // verus!

verus! {

/// The path that components `cs` spell: the root `/` followed directly by
/// the rest, the others separated by `/`.
pub open spec fn render(cs: Seq<Seq<char>>) -> Seq<char>
    decreases cs.len(),
{
    if cs.len() == 0 {
        seq![]
    } else {
        let pre = render(cs.drop_last());
        if cs.len() == 1 || pre.len() == 0 || pre.last() == '/' {
            pre + cs.last()
        } else {
            pre + seq!['/'] + cs.last()
        }
    }
}

/// Writes out a list of components as a path.
pub fn render_components(cs: &Vec<String>) -> (r: String)
    ensures
        r@ == render(cs@.map_values(|c: String| c@)),
{
    let ghost cv = cs@.map_values(|c: String| c@);
    let mut out = String::new();
    let mut i: usize = 0;
    while i < cs.len()
        invariant
            i <= cs.len(),
            cv == cs@.map_values(|c: String| c@),
            out@ == render(cv.subrange(0, i as int)),
        decreases cs.len() - i,
    {
        assert(cv.subrange(0, i + 1).drop_last() == cv.subrange(0, i as int));
        assert(cv.subrange(0, i + 1).last() == cs@[i as int]@);
        let n = out.as_str().unicode_len();
        if i == 0 || n == 0 || out.as_str().get_char(n - 1) == '/' {
            out.append(cs[i].as_str());
        } else {
            proof {
                reveal_strlit("/");
            }
            out.append("/");
            out.append(cs[i].as_str());
            assert(out@ =~= render(cv.subrange(0, i as int)) + seq!['/'] + cv[i as int]);
        }
        i = i + 1;
    }
    assert(cv.subrange(0, cs.len() as int) == cv);
    out
}

/// Whether the components of `base` begin those of `p`.
pub open spec fn starts_with_path(p: Seq<char>, base: Seq<char>) -> bool {
    components(base).len() <= components(p).len() && components(p).subrange(
        0,
        components(base).len() as int,
    ) == components(base)
}

/// Whether component list `a` begins with component list `b`.
pub fn components_start_with(a: &Vec<String>, b: &Vec<String>) -> (r: bool)
    ensures
        r == (b.len() <= a.len() && a@.map_values(|c: String| c@).subrange(0, b.len() as int)
            == b@.map_values(|c: String| c@)),
{
    if b.len() > a.len() {
        return false;
    }
    let mut i: usize = 0;
    while i < b.len()
        invariant
            b.len() <= a.len(),
            i <= b.len(),
            forall|j: int| 0 <= j < i ==> a@[j]@ == b@[j]@,
        decreases b.len() - i,
    {
        if a[i] != b[i] {
            assert(a@.map_values(|c: String| c@)[i as int] != b@.map_values(|c: String| c@)[i as int]);
            return false;
        }
        i = i + 1;
    }
    assert(a@.map_values(|c: String| c@).subrange(0, b.len() as int) =~= b@.map_values(|c: String| c@));
    true
}

/// The components of `p` past those of `base`, written out as a path, when
/// `p` lies under `base`.
pub open spec fn strip_prefix_spec(p: Seq<char>, base: Seq<char>) -> Option<Seq<char>> {
    if starts_with_path(p, base) {
        Some(render(components(p).subrange(components(base).len() as int, components(p).len() as int)))
    } else {
        None
    }
}

/// `p` relative to `base`, when `p` lies under it.
pub fn strip_prefix(p: &str, base: &str) -> (r: Option<String>)
    ensures
        match r {
            Some(s) => strip_prefix_spec(p@, base@) == Some(s@),
            None => strip_prefix_spec(p@, base@) is None,
        },
{
    let pc = path_components(p);
    let bc = path_components(base);
    if !components_start_with(&pc, &bc) {
        return None;
    }
    let mut rest: Vec<String> = Vec::new();
    let mut i: usize = bc.len();
    let ghost pv = pc@.map_values(|c: String| c@);
    while i < pc.len()
        invariant
            bc.len() <= i <= pc.len(),
            pv == pc@.map_values(|c: String| c@),
            rest.len() == i - bc.len(),
            forall|j: int| 0 <= j < rest.len() ==> (#[trigger] rest@[j])@ == pv[bc.len() + j],
        decreases pc.len() - i,
    {
        rest.push(pc[i].clone());
        i = i + 1;
    }
    assert(rest@.map_values(|c: String| c@) =~= pv.subrange(bc.len() as int, pc.len() as int));
    Some(render_components(&rest))
}

} // verus!
