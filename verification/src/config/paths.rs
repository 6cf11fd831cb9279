//! Paths compared as paths rather than as text.
//!
//! Two paths name the same file when they have the same components, as
//! `Path::components` splits them on Unix: repeated slashes, a trailing slash
//! and `.` pieces other than a leading one do not count, so `a//b`, `a/./b`
//! and `a/b/` all name `a/b`, while `./a/b` and `/a/b` do not.

use vstd::prelude::*;
use vstd::string::StrSliceExecFns;

use crate::text::chars_of;

verus! {

/// The pieces of `p` between slashes, in order, empty pieces included.
pub open spec fn slash_pieces(p: Seq<char>) -> Seq<Seq<char>>
    decreases p.len(),
{
    if p.len() == 0 {
        seq![Seq::empty()]
    } else {
        let rest = slash_pieces(p.drop_last());
        if p.last() == '/' {
            rest.push(Seq::empty())
        } else {
            rest.update(rest.len() - 1, rest.last().push(p.last()))
        }
    }
}

/// True if a piece between slashes is a component: empty pieces and `.` are
/// not.
pub open spec fn names_component(s: Seq<char>) -> bool {
    s.len() > 0 && s != seq!['.']
}

/// The pieces that are components, in order.
pub open spec fn named_pieces(pieces: Seq<Seq<char>>) -> Seq<Seq<char>>
    decreases pieces.len(),
{
    if pieces.len() == 0 {
        seq![]
    } else {
        let rest = named_pieces(pieces.drop_last());
        if names_component(pieces.last()) {
            rest.push(pieces.last())
        } else {
            rest
        }
    }
}

/// The component a path starts with besides its named pieces: the root,
/// written as an empty component, for a path that starts with a slash; `.`
/// for a path that is `.` or starts with `./`; none otherwise.
pub open spec fn leading_components(p: Seq<char>) -> Seq<Seq<char>> {
    if p.len() > 0 && p[0] == '/' {
        seq![Seq::empty()]
    } else if p.len() > 0 && p[0] == '.' && (p.len() == 1 || p[1] == '/') {
        seq![seq!['.']]
    } else {
        seq![]
    }
}

/// The components of `p`, in order, the root written as an empty component.
pub open spec fn path_components(p: Seq<char>) -> Seq<Seq<char>> {
    leading_components(p) + named_pieces(slash_pieces(p))
}

/// Each piece followed by a slash.
pub open spec fn slash_terminated(pieces: Seq<Seq<char>>) -> Seq<char>
    decreases pieces.len(),
{
    if pieces.len() == 0 {
        seq![]
    } else {
        slash_terminated(pieces.drop_last()) + pieces.last() + seq!['/']
    }
}

/// The text under which a path is filed: its components, each followed by a
/// slash.
pub open spec fn path_key(p: Seq<char>) -> Seq<char> {
    slash_terminated(path_components(p))
}

/// True if `s` holds no slash.
pub open spec fn slash_free(s: Seq<char>) -> bool {
    forall|j: int| 0 <= j < s.len() ==> s[j] != '/'
}

/// True if no piece holds a slash.
pub open spec fn all_slash_free(pieces: Seq<Seq<char>>) -> bool {
    forall|i: int| 0 <= i < pieces.len() ==> slash_free(#[trigger] pieces[i])
}

proof fn lemma_slash_pieces(p: Seq<char>)
    ensures
        slash_pieces(p).len() >= 1,
        all_slash_free(slash_pieces(p)),
    decreases p.len(),
{
    if p.len() > 0 {
        let rest = slash_pieces(p.drop_last());
        lemma_slash_pieces(p.drop_last());
        let s = slash_pieces(p);
        if p.last() != '/' {
            assert forall|i: int| 0 <= i < s.len() implies slash_free(#[trigger] s[i]) by {
                if i == rest.len() - 1 {
                    assert(slash_free(rest[i]));
                    assert forall|j: int| 0 <= j < s[i].len() implies s[i][j] != '/' by {
                        if j < rest[i].len() {
                            assert(s[i][j] == rest[i][j]);
                        }
                    }
                } else {
                    assert(s[i] == rest[i]);
                }
            }
        } else {
            assert forall|i: int| 0 <= i < s.len() implies slash_free(#[trigger] s[i]) by {
                if i < rest.len() {
                    assert(s[i] == rest[i]);
                }
            }
        }
    }
}

proof fn lemma_named_pieces(pieces: Seq<Seq<char>>)
    requires
        all_slash_free(pieces),
    ensures
        all_slash_free(named_pieces(pieces)),
    decreases pieces.len(),
{
    if pieces.len() > 0 {
        let rest = pieces.drop_last();
        assert forall|i: int| 0 <= i < rest.len() implies slash_free(#[trigger] rest[i]) by {
            assert(rest[i] == pieces[i]);
        }
        lemma_named_pieces(rest);
        let n = named_pieces(pieces);
        let r = named_pieces(rest);
        assert(slash_free(pieces[pieces.len() - 1]));
        assert forall|i: int| 0 <= i < n.len() implies slash_free(#[trigger] n[i]) by {
            if i < r.len() {
                assert(n[i] == r[i]);
            }
        }
    }
}

proof fn lemma_path_components_slash_free(p: Seq<char>)
    ensures
        all_slash_free(path_components(p)),
{
    lemma_slash_pieces(p);
    lemma_named_pieces(slash_pieces(p));
    let l = leading_components(p);
    let n = named_pieces(slash_pieces(p));
    let c = path_components(p);
    assert forall|i: int| 0 <= i < c.len() implies slash_free(#[trigger] c[i]) by {
        if i < l.len() {
            assert(c[i] == l[i]);
        } else {
            assert(c[i] == n[i - l.len()]);
        }
    }
}

proof fn lemma_slash_terminated_ends(pieces: Seq<Seq<char>>)
    ensures
        slash_terminated(pieces).len() == 0 <==> pieces.len() == 0,
        pieces.len() > 0 ==> slash_terminated(pieces).last() == '/',
{
}

proof fn lemma_slash_terminated_injective(xs: Seq<Seq<char>>, ys: Seq<Seq<char>>)
    requires
        all_slash_free(xs),
        all_slash_free(ys),
        slash_terminated(xs) == slash_terminated(ys),
    ensures
        xs == ys,
    decreases xs.len() + ys.len(),
{
    lemma_slash_terminated_ends(xs);
    lemma_slash_terminated_ends(ys);
    if xs.len() == 0 || ys.len() == 0 {
        assert(xs =~= ys);
    } else {
        let xr = xs.drop_last();
        let yr = ys.drop_last();
        let a = slash_terminated(xr);
        let b = slash_terminated(yr);
        let x = xs.last();
        let y = ys.last();
        let k = slash_terminated(xs);
        lemma_slash_terminated_ends(xr);
        lemma_slash_terminated_ends(yr);
        assert(k == a + x + seq!['/']);
        assert(k == b + y + seq!['/']);
        assert(slash_free(x) && slash_free(y)) by {
            assert(x == xs[xs.len() - 1]);
            assert(y == ys[ys.len() - 1]);
        }
        if x.len() < y.len() {
            let i = k.len() - 2 - x.len();
            if a.len() == 0 {
                assert(false);
            }
            assert(k[i] == a[a.len() - 1]);
            assert(k[i] == y[i - b.len()]);
            assert(false);
        }
        if y.len() < x.len() {
            let i = k.len() - 2 - y.len();
            if b.len() == 0 {
                assert(false);
            }
            assert(k[i] == b[b.len() - 1]);
            assert(k[i] == x[i - a.len()]);
            assert(false);
        }
        assert(a =~= k.subrange(0, a.len() as int));
        assert(b =~= k.subrange(0, b.len() as int));
        assert(a == b);
        assert(x =~= k.subrange(a.len() as int, k.len() - 1));
        assert(y =~= k.subrange(b.len() as int, k.len() - 1));
        assert forall|i: int| 0 <= i < xr.len() implies slash_free(#[trigger] xr[i]) by {
            assert(xr[i] == xs[i]);
        }
        assert forall|i: int| 0 <= i < yr.len() implies slash_free(#[trigger] yr[i]) by {
            assert(yr[i] == ys[i]);
        }
        lemma_slash_terminated_injective(xr, yr);
        assert(xs =~= xr.push(x));
        assert(ys =~= yr.push(y));
    }
}

/// Two paths are filed under the same text exactly when they have the same
/// components.
pub proof fn same_key_exactly_for_same_components(a: Seq<char>, b: Seq<char>)
    ensures
        path_key(a) == path_key(b) <==> path_components(a) == path_components(b),
{
    if path_key(a) == path_key(b) {
        lemma_path_components_slash_free(a);
        lemma_path_components_slash_free(b);
        lemma_slash_terminated_injective(path_components(a), path_components(b));
    }
}

/// The text under which `path` is filed.
pub fn file_key(path: &str) -> (res: String)
    ensures
        res@ == path_key(path@),
{
    let chars = chars_of(path);
    let n = chars.len();
    let ghost p = path@;
    let mut key = String::new();
    if n > 0 && chars[0] == '/' {
        key.append("/");
        proof {
            reveal_strlit("/");
            let l = leading_components(p);
            assert(l == seq![Seq::<char>::empty()]);
            assert(l.drop_last() =~= Seq::<Seq<char>>::empty());
            assert(slash_terminated(l.drop_last()) =~= Seq::<char>::empty());
            assert(slash_terminated(l) == slash_terminated(l.drop_last()) + l.last() + seq!['/']);
            assert(slash_terminated(l) =~= seq!['/']);
        }
    } else if n > 0 && chars[0] == '.' && (n == 1 || chars[1] == '/') {
        key.append("./");
        proof {
            reveal_strlit("./");
            let l = leading_components(p);
            assert(l == seq![seq!['.']]);
            assert(l.drop_last() =~= Seq::<Seq<char>>::empty());
            assert(slash_terminated(l.drop_last()) =~= Seq::<char>::empty());
            assert(slash_terminated(l) == slash_terminated(l.drop_last()) + l.last() + seq!['/']);
            assert(slash_terminated(l) =~= seq!['.', '/']);
        }
    } else {
        assert(leading_components(p) =~= Seq::<Seq<char>>::empty());
    }
    let ghost lead = leading_components(p);
    let mut start: usize = 0;
    let mut k: usize = 0;
    let ghost mut done: Seq<Seq<char>> = seq![];
    assert(p.take(0) =~= Seq::<char>::empty());
    assert(p.subrange(0, 0) =~= Seq::<char>::empty());
    assert(lead + named_pieces(done) =~= lead);
    while k < n
        invariant
            chars@ == p,
            path@ == p,
            n == p.len(),
            lead == leading_components(p),
            start <= k <= n,
            slash_pieces(p.take(k as int)) == done.push(p.subrange(start as int, k as int)),
            key@ == slash_terminated(lead + named_pieces(done)),
        decreases n - k,
    {
        let ghost cur = p.subrange(start as int, k as int);
        proof {
            assert(p.take(k + 1).drop_last() =~= p.take(k as int));
            assert(p.take(k + 1).last() == p[k as int]);
        }
        if chars[k] == '/' {
            let named = k > start && !(k == start + 1 && chars[start] == '.');
            if named {
                let piece = path.substring_char(start, k);
                key.append(piece);
                key.append("/");
            }
            proof {
                reveal_strlit("/");
                let before = lead + named_pieces(done);
                let done2 = done.push(cur);
                assert(done2.drop_last() =~= done);
                assert(done2.last() == cur);
                if named {
                    assert(cur != seq!['.']) by {
                        if k == start + 1 {
                            assert(cur[0] == p[start as int]);
                        }
                    }
                    assert((lead + named_pieces(done2)).drop_last() =~= before);
                } else {
                    if k == start + 1 {
                        assert(cur =~= seq!['.']);
                    }
                    assert(lead + named_pieces(done2) =~= before);
                }
                done = done2;
                assert(p.subrange(k + 1, k + 1) =~= Seq::<char>::empty());
                assert(slash_pieces(p.take(k + 1)) =~= done.push(p.subrange(k + 1, k + 1)));
            }
            start = k + 1;
        } else {
            proof {
                let rest = done.push(cur);
                assert(rest.last() == cur);
                assert(cur.push(p[k as int]) =~= p.subrange(start as int, k + 1));
                assert(rest.update(rest.len() - 1, rest.last().push(p[k as int])) =~= done.push(
                    p.subrange(start as int, k + 1),
                ));
            }
        }
        k = k + 1;
    }
    let ghost cur = p.subrange(start as int, n as int);
    let named = n > start && !(n == start + 1 && chars[start] == '.');
    if named {
        let piece = path.substring_char(start, n);
        key.append(piece);
        key.append("/");
    }
    proof {
        reveal_strlit("/");
        assert(p.take(n as int) =~= p);
        let before = lead + named_pieces(done);
        let done2 = done.push(cur);
        assert(done2.drop_last() =~= done);
        assert(done2.last() == cur);
        if named {
            assert(cur != seq!['.']) by {
                if n == start + 1 {
                    assert(cur[0] == p[start as int]);
                }
            }
            assert((lead + named_pieces(done2)).drop_last() =~= before);
        } else {
            if n == start + 1 {
                assert(cur =~= seq!['.']);
            }
            assert(lead + named_pieces(done2) =~= before);
        }
    }
    key
}

} // verus!
