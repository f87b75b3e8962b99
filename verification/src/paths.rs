//! Paths of archive members, as bytes: their components, and the
//! normalisation that keeps every extracted file inside its destination.

use vstd::prelude::*;

use crate::archive::ExtractError;

verus! {

/// The separator `/`.
pub const SLASH: u8 = 47;

/// The component `.`.
pub open spec fn dot() -> Seq<u8> {
    seq![46u8]
}

/// The component `..`.
pub open spec fn dot_dot() -> Seq<u8> {
    seq![46u8, 46u8]
}

/// `cur` as a completed component: nothing when it is empty.
pub open spec fn emit(cur: Seq<u8>) -> Seq<Seq<u8>> {
    if cur.len() == 0 {
        seq![]
    } else {
        seq![cur]
    }
}

/// The components of `p`, given that `cur` is the part of a component read so
/// far: the maximal runs of bytes other than `/`, in order.
pub open spec fn components_from(p: Seq<u8>, cur: Seq<u8>) -> Seq<Seq<u8>>
    decreases p.len(),
{
    if p.len() == 0 {
        emit(cur)
    } else if p[0] == SLASH {
        emit(cur) + components_from(p.drop_first(), seq![])
    } else {
        components_from(p.drop_first(), cur.push(p[0]))
    }
}

/// The components of `p`: its maximal runs of bytes other than `/`.
pub open spec fn components(p: Seq<u8>) -> Seq<Seq<u8>> {
    components_from(p, seq![])
}

/// Whether `p` is absolute, that is, begins with `/`.
pub open spec fn is_rooted(p: Seq<u8>) -> bool {
    p.len() > 0 && p[0] == SLASH
}

/// The components of `parts` other than `.`, in order.
pub open spec fn without_cur_dir(parts: Seq<Seq<u8>>) -> Seq<Seq<u8>>
    decreases parts.len(),
{
    if parts.len() == 0 {
        seq![]
    } else if parts.last() == dot() {
        without_cur_dir(parts.drop_last())
    } else {
        without_cur_dir(parts.drop_last()).push(parts.last())
    }
}

/// `parts` joined with `/` between each two of them.
pub open spec fn join(parts: Seq<Seq<u8>>) -> Seq<u8>
    decreases parts.len(),
{
    if parts.len() == 0 {
        seq![]
    } else if parts.len() == 1 {
        parts[0]
    } else {
        join(parts.drop_last()) + seq![SLASH] + parts.last()
    }
}

/// A component that names an entry: not empty, not `.`, not `..`, no `/`.
pub open spec fn is_normal_component(c: Seq<u8>) -> bool {
    &&& c.len() > 0
    &&& c != dot()
    &&& c != dot_dot()
    &&& forall|i: int| 0 <= i < c.len() ==> c[i] != SLASH
}

/// The relative path that a member path `p` is extracted to: its components
/// other than `.`, joined; or nothing, where `p` is absolute or has a `..`
/// component, which could reach outside the destination.
pub open spec fn sanitized(p: Seq<u8>) -> Option<Seq<u8>> {
    if is_rooted(p) || components(p).contains(dot_dot()) {
        None
    } else {
        Some(join(without_cur_dir(components(p))))
    }
}

/// Whether `p` is absolute or has a `..` component.
pub open spec fn escapes(p: Seq<u8>) -> bool {
    is_rooted(p) || components(p).contains(dot_dot())
}

/// Normalises the member path `path` into a relative path; refuses it, as a
/// path traversal, where it is absolute or has a `..` component.
pub fn sanitize_tar_path(path: &[u8]) -> (r: Result<Vec<u8>, ExtractError>)
    ensures
        match r {
            Ok(v) => sanitized(path@) == Some(v@),
            Err(e) => sanitized(path@) is None && e == ExtractError::PathTraversal,
        },
{
    let n = path.len();
    if n > 0 && path[0] == 47u8 {
        return Err(ExtractError::PathTraversal);
    }
    let mut out: Vec<u8> = Vec::new();
    let mut cur: Vec<u8> = Vec::new();
    let ghost mut done: Seq<Seq<u8>> = seq![];
    let mut i: usize = 0;
    assert(path@.skip(0) =~= path@);
    while i < n
        invariant
            i <= n,
            n == path@.len(),
            !is_rooted(path@),
            done + components_from(path@.skip(i as int), cur@) == components(path@),
            !done.contains(dot_dot()),
            out@ == join(without_cur_dir(done)),
            forall|k: int| 0 <= k < cur@.len() ==> cur@[k] != SLASH,
            forall|k: int| 0 <= k < done.len() ==> (#[trigger] done[k]).len() > 0,
        decreases n - i,
    {
        let b = path[i];
        assert(path@.skip(i as int)[0] == b);
        assert(path@.skip(i as int).drop_first() =~= path@.skip(i + 1));
        if b == 47u8 {
            if cur.len() > 0 {
                if cur.len() == 2 && cur[0] == 46u8 && cur[1] == 46u8 {
                    assert(cur@ =~= dot_dot());
                    assert((done + components_from(path@.skip(i as int), cur@))[done.len() as int]
                        == dot_dot());
                    return Err(ExtractError::PathTraversal);
                }
                proof {
                    assert(done + components_from(path@.skip(i as int), cur@) =~= done.push(cur@)
                        + components_from(path@.skip(i + 1), seq![]));
                    lemma_component_done(done, cur@);
                    done = done.push(cur@);
                }
                if cur.len() == 1 && cur[0] == 46u8 {
                    assert(cur@ =~= dot());
                    cur = Vec::new();
                } else {
                    if out.len() > 0 {
                        out.push(47u8);
                    }
                    out.append(&mut cur);
                }
            } else {
                assert(cur@ =~= Seq::<u8>::empty());
                assert(done + components_from(path@.skip(i as int), cur@) =~= done
                    + components_from(path@.skip(i + 1), seq![]));
            }
        } else {
            assert(components_from(path@.skip(i as int), cur@) == components_from(
                path@.skip(i + 1),
                cur@.push(b),
            ));
            cur.push(b);
        }
        i = i + 1;
    }
    assert(path@.skip(n as int) =~= Seq::<u8>::empty());
    if cur.len() > 0 {
        if cur.len() == 2 && cur[0] == 46u8 && cur[1] == 46u8 {
            assert(cur@ =~= dot_dot());
            assert((done + emit(cur@))[done.len() as int] == dot_dot());
            return Err(ExtractError::PathTraversal);
        }
        proof {
            assert(done + emit(cur@) =~= done.push(cur@));
            lemma_component_done(done, cur@);
            done = done.push(cur@);
        }
        if !(cur.len() == 1 && cur[0] == 46u8) {
            if out.len() > 0 {
                out.push(47u8);
            }
            out.append(&mut cur);
        } else {
            assert(cur@ =~= dot());
        }
    } else {
        assert(done + emit(cur@) =~= done);
    }
    Ok(out)
}

/// Completing a component other than `..`: the parts read so far stay free
/// of `..`, and the output grows by the component, after a separator unless
/// it was empty, where the component is not `.`.
proof fn lemma_component_done(done: Seq<Seq<u8>>, c: Seq<u8>)
    requires
        !done.contains(dot_dot()),
        c != dot_dot(),
        c.len() > 0,
        forall|k: int| 0 <= k < done.len() ==> (#[trigger] done[k]).len() > 0,
    ensures
        !done.push(c).contains(dot_dot()),
        forall|k: int| 0 <= k < done.push(c).len() ==> (#[trigger] done.push(c)[k]).len() > 0,
        c == dot() ==> join(without_cur_dir(done.push(c))) == join(without_cur_dir(done)),
        c != dot() ==> join(without_cur_dir(done.push(c))) == if join(without_cur_dir(done)).len()
            == 0 {
            c
        } else {
            join(without_cur_dir(done)) + seq![SLASH] + c
        },
{
    let next = done.push(c);
    assert(next.drop_last() =~= done);
    lemma_without_cur_dir_members(done);
    if c != dot() {
        lemma_join_push(without_cur_dir(done), c);
    }
    assert(!next.contains(dot_dot())) by {
        if next.contains(dot_dot()) {
            let k = choose|k: int| 0 <= k < next.len() && next[k] == dot_dot();
            if k < done.len() {
                assert(done[k] == next[k]);
            }
        }
    }
    assert forall|k: int| 0 <= k < next.len() implies (#[trigger] next[k]).len() > 0 by {
        if k < done.len() {
            assert(done[k] == next[k]);
        }
    }
}

/// Every part kept by `without_cur_dir` is a part of the input other than `.`.
proof fn lemma_without_cur_dir_members(parts: Seq<Seq<u8>>)
    ensures
        forall|k: int|
            0 <= k < without_cur_dir(parts).len() ==> {
                &&& parts.contains(#[trigger] without_cur_dir(parts)[k])
                &&& without_cur_dir(parts)[k] != dot()
            },
        without_cur_dir(parts).len() <= parts.len(),
    decreases parts.len(),
{
    if parts.len() > 0 {
        let init = parts.drop_last();
        lemma_without_cur_dir_members(init);
        assert forall|k: int| 0 <= k < without_cur_dir(parts).len() implies {
            &&& parts.contains(#[trigger] without_cur_dir(parts)[k])
            &&& without_cur_dir(parts)[k] != dot()
        } by {
            if k < without_cur_dir(init).len() {
                let j = choose|j: int| 0 <= j < init.len() && init[j] == without_cur_dir(init)[k];
                assert(parts[j] == init[j]);
            } else {
                assert(parts[parts.len() - 1] == parts.last());
            }
        }
    }
}

/// Joining one more non-empty part: the separator comes only between parts.
proof fn lemma_join_push(parts: Seq<Seq<u8>>, c: Seq<u8>)
    requires
        forall|k: int| 0 <= k < parts.len() ==> (#[trigger] parts[k]).len() > 0,
        c.len() > 0,
    ensures
        join(parts.push(c)) == if join(parts).len() == 0 {
            c
        } else {
            join(parts) + seq![SLASH] + c
        },
        join(parts.push(c)).len() > 0,
        join(parts).len() == 0 <==> parts.len() == 0,
{
    lemma_join_empty(parts);
    assert(parts.push(c).drop_last() =~= parts);
    if parts.len() == 0 {
        assert(parts.push(c).len() == 1);
    }
}

/// A join of non-empty parts is empty exactly when there are no parts.
proof fn lemma_join_empty(parts: Seq<Seq<u8>>)
    requires
        forall|k: int| 0 <= k < parts.len() ==> (#[trigger] parts[k]).len() > 0,
    ensures
        join(parts).len() == 0 <==> parts.len() == 0,
    decreases parts.len(),
{
    if parts.len() > 1 {
        lemma_join_empty(parts.drop_last());
    }
    if parts.len() == 1 {
        assert(parts[0].len() > 0);
    }
}

/// Component reading starts afresh after a separator.
proof fn lemma_components_split(x: Seq<u8>, y: Seq<u8>, cur: Seq<u8>)
    ensures
        components_from(x + seq![SLASH] + y, cur) == components_from(x, cur) + components_from(
            y,
            seq![],
        ),
    decreases x.len(),
{
    let whole = x + seq![SLASH] + y;
    if x.len() == 0 {
        assert(whole.drop_first() =~= y);
        assert(emit(cur) + components_from(y, seq![]) =~= components_from(x, cur)
            + components_from(y, seq![]));
    } else {
        assert(whole.drop_first() =~= x.drop_first() + seq![SLASH] + y);
        assert(whole[0] == x[0]);
        if x[0] == SLASH {
            lemma_components_split(x.drop_first(), y, seq![]);
            assert(emit(cur) + (components_from(x.drop_first(), seq![]) + components_from(
                y,
                seq![],
            )) =~= emit(cur) + components_from(x.drop_first(), seq![]) + components_from(
                y,
                seq![],
            ));
        } else {
            lemma_components_split(x.drop_first(), y, cur.push(x[0]));
        }
    }
}

/// A run of bytes without separators continues the component being read.
proof fn lemma_components_of_run(w: Seq<u8>, cur: Seq<u8>)
    requires
        forall|i: int| 0 <= i < w.len() ==> w[i] != SLASH,
    ensures
        components_from(w, cur) == emit(cur + w),
    decreases w.len(),
{
    if w.len() == 0 {
        assert(cur + w =~= cur);
    } else {
        assert(cur.push(w[0]) + w.drop_first() =~= cur + w);
        lemma_components_of_run(w.drop_first(), cur.push(w[0]));
    }
}

/// The components of joined normal parts are those parts.
proof fn lemma_components_of_join(parts: Seq<Seq<u8>>)
    requires
        forall|k: int| 0 <= k < parts.len() ==> is_normal_component(#[trigger] parts[k]),
    ensures
        components(join(parts)) == parts,
        parts.len() > 0 ==> join(parts).len() > 0 && join(parts)[0] == parts[0][0],
    decreases parts.len(),
{
    if parts.len() == 0 {
        assert(components(join(parts)) =~= parts);
    } else if parts.len() == 1 {
        assert(is_normal_component(parts[0]));
        lemma_components_of_run(parts[0], seq![]);
        assert(seq![] + parts[0] =~= parts[0]);
        assert(emit(parts[0]) =~= parts);
    } else {
        let init = parts.drop_last();
        assert forall|k: int| 0 <= k < init.len() implies is_normal_component(
            #[trigger] init[k],
        ) by {
            assert(init[k] == parts[k]);
        }
        lemma_components_of_join(init);
        let last = parts.last();
        assert(is_normal_component(parts[parts.len() - 1]));
        lemma_components_split(join(init), last, seq![]);
        lemma_components_of_run(last, seq![]);
        assert(seq![] + last =~= last);
        assert(init + emit(last) =~= parts);
        assert(init[0] == parts[0]);
    }
}

/// The components of any path are non-empty and hold no separator.
proof fn lemma_components_shape(p: Seq<u8>, cur: Seq<u8>)
    requires
        forall|i: int| 0 <= i < cur.len() ==> cur[i] != SLASH,
    ensures
        forall|k: int|
            0 <= k < components_from(p, cur).len() ==> {
                &&& (#[trigger] components_from(p, cur)[k]).len() > 0
                &&& forall|i: int|
                    0 <= i < components_from(p, cur)[k].len() ==> components_from(p, cur)[k][i]
                        != SLASH
            },
    decreases p.len(),
{
    if p.len() > 0 {
        if p[0] == SLASH {
            lemma_components_shape(p.drop_first(), seq![]);
            let rest = components_from(p.drop_first(), seq![]);
            assert forall|k: int| 0 <= k < components_from(p, cur).len() implies {
                &&& (#[trigger] components_from(p, cur)[k]).len() > 0
                &&& forall|i: int|
                    0 <= i < components_from(p, cur)[k].len() ==> components_from(p, cur)[k][i]
                        != SLASH
            } by {
                if k >= emit(cur).len() {
                    assert(components_from(p, cur)[k] == rest[k - emit(cur).len()]);
                } else {
                    assert(components_from(p, cur)[k] == cur);
                }
            }
        } else {
            lemma_components_shape(p.drop_first(), cur.push(p[0]));
            assert(components_from(p, cur) == components_from(p.drop_first(), cur.push(p[0])));
        }
    } else if cur.len() > 0 {
        assert(components_from(p, cur) =~= seq![cur]);
    }
}

/// What extraction relies on: a path that is accepted becomes a relative
/// path whose components are exactly the named components of the given path, in
/// order, none of them `.` or `..`; so it cannot leave the directory it is
/// joined to.
pub proof fn lemma_sanitized_stays_inside(p: Seq<u8>)
    requires
        sanitized(p) is Some,
    ensures
        !is_rooted(sanitized(p)->0),
        components(sanitized(p)->0) == without_cur_dir(components(p)),
        forall|k: int|
            0 <= k < components(sanitized(p)->0).len() ==> is_normal_component(
                #[trigger] components(sanitized(p)->0)[k],
            ),
{
    let parts = without_cur_dir(components(p));
    lemma_components_shape(p, seq![]);
    lemma_without_cur_dir_members(components(p));
    assert forall|k: int| 0 <= k < parts.len() implies is_normal_component(#[trigger] parts[k]) by {
        let j = choose|j: int|
            0 <= j < components(p).len() && components(p)[j] == parts[k];
        assert(components(p)[j].len() > 0);
    }
    lemma_components_of_join(parts);
    if parts.len() > 0 {
        assert(parts[0][0] != SLASH);
    }
}

/// Normalising an accepted path again changes nothing.
pub proof fn lemma_sanitize_idempotent(p: Seq<u8>)
    requires
        sanitized(p) is Some,
    ensures
        sanitized(sanitized(p)->0) == sanitized(p),
{
    let q = sanitized(p)->0;
    lemma_sanitized_stays_inside(p);
    let cq = components(q);
    assert(!cq.contains(dot_dot())) by {
        if cq.contains(dot_dot()) {
            let k = choose|k: int| 0 <= k < cq.len() && cq[k] == dot_dot();
            assert(is_normal_component(cq[k]));
        }
    }
    lemma_without_cur_dir_of_normal(cq);
}

/// Parts none of which is `.` are kept as they are.
proof fn lemma_without_cur_dir_of_normal(parts: Seq<Seq<u8>>)
    requires
        forall|k: int| 0 <= k < parts.len() ==> is_normal_component(#[trigger] parts[k]),
    ensures
        without_cur_dir(parts) == parts,
    decreases parts.len(),
{
    if parts.len() > 0 {
        let init = parts.drop_last();
        assert forall|k: int| 0 <= k < init.len() implies is_normal_component(
            #[trigger] init[k],
        ) by {
            assert(init[k] == parts[k]);
        }
        lemma_without_cur_dir_of_normal(init);
        assert(is_normal_component(parts[parts.len() - 1]));
        assert(init.push(parts.last()) =~= parts);
    }
}

/// A path made of named components joined by single `/` is kept as it is:
/// a relative path written that way comes back unchanged from sanitising.
pub proof fn lemma_normal_path_preserved(parts: Seq<Seq<u8>>)
    requires
        forall|k: int| 0 <= k < parts.len() ==> is_normal_component(#[trigger] parts[k]),
    ensures
        sanitized(join(parts)) == Some(join(parts)),
{
    lemma_components_of_join(parts);
    let p = join(parts);
    assert(!components(p).contains(dot_dot())) by {
        if components(p).contains(dot_dot()) {
            let k = choose|k: int| 0 <= k < parts.len() && parts[k] == dot_dot();
            assert(is_normal_component(parts[k]));
        }
    }
    if parts.len() > 0 {
        assert(is_normal_component(parts[0]));
        assert(parts[0][0] != SLASH);
    }
    lemma_without_cur_dir_of_normal(parts);
}

} // verus!
