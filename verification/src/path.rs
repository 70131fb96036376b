//! Paths as byte strings: segments, resolution of relative specifiers,
//! source identifiers and the placement of a module under an output root.

use vstd::prelude::*;
use crate::text::{
    append,
    copy_range,
    ends_with,
    is_prefix,
    is_suffix,
    starts_with,
    to_vec,
};

verus! {

/// The path separator, `/`.
pub const SLASH: u8 = 47;

/// The byte `.`.
pub const DOT: u8 = 46;

/// The extension of a module file, `.js`.
pub open spec fn module_extension() -> Seq<u8> {
    seq![46u8, 106u8, 115u8]
}

/// The segments of a path: the pieces between its separators. A path with
/// `n` separators has `n + 1` segments, some of which may be empty.
pub open spec fn segments(s: Seq<u8>) -> Seq<Seq<u8>>
    decreases s.len(),
{
    if s.len() == 0 {
        seq![Seq::<u8>::empty()]
    } else {
        let init = segments(s.drop_last());
        if s.last() == SLASH {
            init.push(Seq::<u8>::empty())
        } else {
            init.drop_last().push(init.last().push(s.last()))
        }
    }
}

/// The segments written out with a separator between neighbours.
pub open spec fn joined(segs: Seq<Seq<u8>>) -> Seq<u8>
    decreases segs.len(),
{
    if segs.len() == 0 {
        Seq::<u8>::empty()
    } else if segs.len() == 1 {
        segs[0]
    } else {
        joined(segs.drop_last()) + seq![SLASH] + segs.last()
    }
}

/// The segment `.`, which names the directory it stands in.
pub open spec fn is_dot(seg: Seq<u8>) -> bool {
    seg == seq![DOT]
}

/// The segment `..`, which names the parent directory.
pub open spec fn is_dotdot(seg: Seq<u8>) -> bool {
    seg == seq![DOT, DOT]
}

/// Follows `segs` from the directory `stack`: an empty segment or `.` stays,
/// `..` leaves the innermost directory, any other segment enters it.
/// `None` when `..` would leave the outermost directory.
pub open spec fn walk(stack: Seq<Seq<u8>>, segs: Seq<Seq<u8>>) -> Option<Seq<Seq<u8>>>
    decreases segs.len(),
{
    if segs.len() == 0 {
        Some(stack)
    } else {
        let seg = segs[0];
        let rest = segs.skip(1);
        if seg.len() == 0 || is_dot(seg) {
            walk(stack, rest)
        } else if is_dotdot(seg) {
            if stack.len() == 0 {
                None
            } else {
                walk(stack.drop_last(), rest)
            }
        } else {
            walk(stack.push(seg), rest)
        }
    }
}

/// The path that `specifier` names when it is written in the module at
/// `importer`: the specifier's segments are followed from the importer's
/// directory. `None` when they lead out of the tree or name nothing.
pub open spec fn resolved(importer: Seq<u8>, specifier: Seq<u8>) -> Option<Seq<u8>> {
    match walk(segments(importer).drop_last(), segments(specifier)) {
        Some(stack) => if stack.len() == 0 {
            None
        } else {
            Some(joined(stack))
        },
        None => None,
    }
}

/// A relative specifier begins with `./` or `../`.
pub open spec fn relative(specifier: Seq<u8>) -> bool {
    is_prefix(seq![DOT, SLASH], specifier) || is_prefix(seq![DOT, DOT, SLASH], specifier)
}

/// Whether the last segment of `specifier` is a name without a `.` in it.
pub open spec fn lacks_extension(specifier: Seq<u8>) -> bool {
    let last = segments(specifier).last();
    last.len() > 0 && !last.contains(DOT)
}

/// The specifier with the module extension made explicit.
pub open spec fn with_extension(specifier: Seq<u8>) -> Seq<u8> {
    if lacks_extension(specifier) {
        specifier + module_extension()
    } else {
        specifier
    }
}

/// Where the path `rel` lies under the directory `base`.
pub open spec fn placed(base: Seq<u8>, rel: Seq<u8>) -> Seq<u8> {
    if base.len() == 0 {
        rel
    } else if base.last() == SLASH {
        base + rel
    } else {
        base + seq![SLASH] + rel
    }
}

/// The part of `path` below `root`, when `path` lies in or at `root`.
pub open spec fn below(root: Seq<u8>, path: Seq<u8>) -> Option<Seq<u8>> {
    if root.len() == 0 {
        Some(path)
    } else if !is_prefix(root, path) {
        None
    } else {
        let rest = path.skip(root.len() as int);
        if root.last() == SLASH || rest.len() == 0 {
            Some(rest)
        } else if rest[0] == SLASH {
            Some(rest.skip(1))
        } else {
            None
        }
    }
}

/// The views of the segments held in a vector.
pub open spec fn segment_views(v: Seq<Vec<u8>>) -> Seq<Seq<u8>> {
    Seq::new(v.len(), |i: int| v[i]@)
}

/// Every path has at least one segment.
pub proof fn lemma_segments_nonempty(s: Seq<u8>)
    ensures
        segments(s).len() >= 1,
    decreases s.len(),
{
    if s.len() > 0 {
        lemma_segments_nonempty(s.drop_last());
    }
}

/// Splitting at a separator: the segments of `a/b` are those of `a`
/// followed by those of `b`.
pub proof fn lemma_segments_of_placed(a: Seq<u8>, b: Seq<u8>)
    ensures
        segments(a + seq![SLASH] + b) == segments(a) + segments(b),
    decreases b.len(),
{
    let whole = a + seq![SLASH] + b;
    if b.len() == 0 {
        assert(whole.drop_last() == a);
        assert(segments(whole) == segments(a).push(Seq::<u8>::empty()));
        assert(segments(b) == seq![Seq::<u8>::empty()]);
        assert(segments(a).push(Seq::<u8>::empty()) == segments(a) + segments(b));
    } else {
        let b0 = b.drop_last();
        lemma_segments_of_placed(a, b0);
        lemma_segments_nonempty(b0);
        assert(whole.drop_last() == a + seq![SLASH] + b0);
        assert(whole.last() == b.last());
        let x = segments(a);
        let y = segments(b0);
        if b.last() == SLASH {
            assert((x + y).push(Seq::<u8>::empty()) == x + y.push(Seq::<u8>::empty()));
        } else {
            assert((x + y).last() == y.last());
            assert((x + y).drop_last() == x + y.drop_last());
            assert((x + y.drop_last()).push(y.last().push(b.last())) == x + y.drop_last().push(
                y.last().push(b.last()),
            ));
        }
    }
}

/// Joining the segments of a path gives the path back.
pub proof fn lemma_joined_segments(s: Seq<u8>)
    ensures
        joined(segments(s)) == s,
    decreases s.len(),
{
    if s.len() == 0 {
        assert(segments(s)[0] == s);
    } else {
        let s0 = s.drop_last();
        lemma_joined_segments(s0);
        lemma_segments_nonempty(s0);
        let init = segments(s0);
        assert(s == s0.push(s.last()));
        if s.last() == SLASH {
            let next = init.push(Seq::<u8>::empty());
            assert(next.drop_last() == init);
            assert(joined(next) == joined(init) + seq![SLASH] + Seq::<u8>::empty());
            assert(joined(init) + seq![SLASH] + Seq::<u8>::empty() == s0.push(SLASH));
        } else {
            let grown = init.last().push(s.last());
            let next = init.drop_last().push(grown);
            if init.len() == 1 {
                assert(next.len() == 1);
                assert(joined(init) == init[0]);
                assert(joined(next) == grown);
            } else {
                assert(next.drop_last() == init.drop_last());
                assert(joined(next) == joined(init.drop_last()) + seq![SLASH] + grown);
                assert(joined(init) == joined(init.drop_last()) + seq![SLASH] + init.last());
                assert(joined(init.drop_last()) + seq![SLASH] + grown == (joined(
                    init.drop_last(),
                ) + seq![SLASH] + init.last()).push(s.last()));
            }
        }
    }
}

/// Joining two runs of segments puts one separator between them.
pub proof fn lemma_joined_concat(pre: Seq<Seq<u8>>, rest: Seq<Seq<u8>>)
    requires
        pre.len() >= 1,
        rest.len() >= 1,
    ensures
        joined(pre + rest) == joined(pre) + seq![SLASH] + joined(rest),
    decreases rest.len(),
{
    let all = pre + rest;
    assert(all.drop_last() == pre + rest.drop_last());
    assert(all.last() == rest.last());
    if rest.len() == 1 {
        assert(pre + rest.drop_last() == pre);
    } else {
        lemma_joined_concat(pre, rest.drop_last());
        assert(joined(all) == (joined(pre) + seq![SLASH] + joined(rest.drop_last())) + seq![SLASH]
            + rest.last());
        assert((joined(pre) + seq![SLASH] + joined(rest.drop_last())) + seq![SLASH] + rest.last()
            == joined(pre) + seq![SLASH] + (joined(rest.drop_last()) + seq![SLASH] + rest.last()));
    }
}

/// A walk that stays inside its starting directory is not disturbed by the
/// directories above it.
pub proof fn lemma_walk_under_prefix(
    pre: Seq<Seq<u8>>,
    stack: Seq<Seq<u8>>,
    segs: Seq<Seq<u8>>,
)
    requires
        walk(stack, segs) is Some,
    ensures
        walk(pre + stack, segs) == Some(pre + walk(stack, segs).unwrap()),
    decreases segs.len(),
{
    if segs.len() > 0 {
        let seg = segs[0];
        let rest = segs.skip(1);
        if seg.len() == 0 || is_dot(seg) {
            lemma_walk_under_prefix(pre, stack, rest);
        } else if is_dotdot(seg) {
            lemma_walk_under_prefix(pre, stack.drop_last(), rest);
            assert((pre + stack).drop_last() == pre + stack.drop_last());
        } else {
            lemma_walk_under_prefix(pre, stack.push(seg), rest);
            assert((pre + stack).push(seg) == pre + stack.push(seg));
        }
    }
}

/// Relative links survive placement: when a specifier written in the module
/// `importer` names the module `target`, then in the copy of the importer
/// placed under any directory `root` the same specifier names the copy of
/// the target placed under `root`.
pub proof fn lemma_relative_link_survives_placement(
    root: Seq<u8>,
    importer: Seq<u8>,
    specifier: Seq<u8>,
    target: Seq<u8>,
)
    requires
        resolved(importer, specifier) == Some(target),
    ensures
        resolved(placed(root, importer), specifier) == Some(placed(root, target)),
{
    if root.len() > 0 {
        let stem = if root.last() == SLASH {
            root.drop_last()
        } else {
            root
        };
        assert(placed(root, importer) == stem + seq![SLASH] + importer);
        assert(placed(root, target) == stem + seq![SLASH] + target);
        let pre = segments(stem);
        let dir = segments(importer).drop_last();
        let stack = walk(dir, segments(specifier)).unwrap();
        lemma_segments_nonempty(stem);
        lemma_segments_nonempty(importer);
        lemma_segments_of_placed(stem, importer);
        assert((pre + segments(importer)).drop_last() == pre + dir);
        lemma_walk_under_prefix(pre, dir, segments(specifier));
        lemma_joined_concat(pre, stack);
        lemma_joined_segments(stem);
    }
}

/// The module extension as bytes.
pub fn extension_bytes() -> (r: Vec<u8>)
    ensures
        r@ == module_extension(),
{
    let mut v: Vec<u8> = Vec::new();
    v.push(46u8);
    v.push(106u8);
    v.push(115u8);
    assert(v@ == module_extension());
    v
}

/// Whether `name` follows the module file convention: it ends in `.js`.
pub fn is_module_file(name: &[u8]) -> (r: bool)
    ensures
        r == is_suffix(module_extension(), name@),
{
    let ext = extension_bytes();
    ends_with(name, ext.as_slice())
}

/// Splits a path into its segments.
pub fn split_segments(path: &[u8]) -> (r: Vec<Vec<u8>>)
    ensures
        segment_views(r@) == segments(path@),
        r.len() >= 1,
{
    let mut out: Vec<Vec<u8>> = Vec::new();
    let mut cur: Vec<u8> = Vec::new();
    let mut i: usize = 0;
    assert(path@.take(0) == Seq::<u8>::empty());
    assert(segment_views(out@).push(cur@) == seq![Seq::<u8>::empty()]);
    while i < path.len()
        invariant
            i <= path.len(),
            segments(path@.take(i as int)) == segment_views(out@).push(cur@),
        decreases path.len() - i,
    {
        let ghost before = segment_views(out@);
        let ghost cur_before = cur@;
        let b = path[i];
        proof {
            let next = path@.take(i + 1);
            assert(next.drop_last() == path@.take(i as int));
            assert(next.last() == b);
        }
        if b == SLASH {
            out.push(cur);
            cur = Vec::new();
            assert(segment_views(out@) == before.push(cur_before));
        } else {
            cur.push(b);
            assert(before.push(cur_before).drop_last() == before);
        }
        i += 1;
    }
    assert(path@.take(path.len() as int) == path@);
    let ghost before = segment_views(out@);
    let ghost last = cur@;
    out.push(cur);
    assert(segment_views(out@) == before.push(last));
    out
}

/// Writes segments out with a separator between neighbours.
pub fn join_segments(segs: &Vec<Vec<u8>>) -> (r: Vec<u8>)
    ensures
        r@ == joined(segment_views(segs@)),
{
    let mut out: Vec<u8> = Vec::new();
    let mut k: usize = 0;
    let ghost all = segment_views(segs@);
    assert(all.take(0).len() == 0);
    while k < segs.len()
        invariant
            k <= segs.len(),
            all == segment_views(segs@),
            out@ == joined(all.take(k as int)),
        decreases segs.len() - k,
    {
        proof {
            let next = all.take(k + 1);
            assert(next.drop_last() == all.take(k as int));
            assert(next.last() == segs@[k as int]@);
            if k == 0 {
                assert(next[0] == segs@[0]@);
            }
        }
        if k > 0 {
            out.push(SLASH);
        }
        append(&mut out, segs[k].as_slice());
        k += 1;
    }
    assert(all.take(segs.len() as int) == all);
    out
}

/// Whether `specifier` is relative: it begins with `./` or `../`.
pub fn is_relative(specifier: &[u8]) -> (r: bool)
    ensures
        r == relative(specifier@),
{
    let one: [u8; 2] = [DOT, SLASH];
    let two: [u8; 3] = [DOT, DOT, SLASH];
    assert(one@ == seq![DOT, SLASH]);
    assert(two@ == seq![DOT, DOT, SLASH]);
    starts_with(specifier, one.as_slice()) || starts_with(specifier, two.as_slice())
}

/// Whether `s` holds the byte `b`.
pub fn contains_byte(s: &[u8], b: u8) -> (r: bool)
    ensures
        r == s@.contains(b),
{
    let mut i: usize = 0;
    while i < s.len()
        invariant
            i <= s.len(),
            forall|j: int| 0 <= j < i ==> s@[j] != b,
        decreases s.len() - i,
    {
        if s[i] == b {
            return true;
        }
        i += 1;
    }
    false
}

/// The specifier with the module extension made explicit: `.js` is added
/// when the last segment is a name without a `.` in it.
pub fn ensure_extension(specifier: &[u8]) -> (r: Vec<u8>)
    ensures
        r@ == with_extension(specifier@),
{
    let segs = split_segments(specifier);
    let last = &segs[segs.len() - 1];
    assert(last@ == segment_views(segs@)[segs.len() - 1]);
    let mut out = to_vec(specifier);
    if last.len() > 0 && !contains_byte(last.as_slice(), DOT) {
        let ext = extension_bytes();
        append(&mut out, ext.as_slice());
    }
    out
}

/// Where the path `rel` lies under the directory `base`.
pub fn join_path(base: &[u8], rel: &[u8]) -> (r: Vec<u8>)
    ensures
        r@ == placed(base@, rel@),
{
    let mut out = to_vec(base);
    if base.len() > 0 && base[base.len() - 1] != SLASH {
        out.push(SLASH);
    }
    append(&mut out, rel);
    assert(base@.len() == 0 ==> Seq::<u8>::empty() + rel@ == rel@);
    out
}

/// The identifier of the source at `path` in the project at `root`: the
/// path as seen from the root. `None` when the path does not lie in the
/// project.
pub fn source_id(root: &[u8], path: &[u8]) -> (r: Option<Vec<u8>>)
    ensures
        r is Some == below(root@, path@) is Some,
        r matches Some(id) ==> Some(id@) == below(root@, path@),
{
    if root.len() == 0 {
        return Some(to_vec(path));
    }
    if !starts_with(path, root) {
        return None;
    }
    let n = root.len();
    if root[n - 1] == SLASH || path.len() == n {
        Some(copy_range(path, n, path.len()))
    } else if path[n] == SLASH {
        assert(path@.skip(n as int).skip(1) == path@.subrange(n + 1, path@.len() as int));
        Some(copy_range(path, n + 1, path.len()))
    } else {
        None
    }
}

/// The path that `specifier` names when it is written in the module at
/// `importer`.
pub fn resolve_relative(importer: &[u8], specifier: &[u8]) -> (r: Option<Vec<u8>>)
    ensures
        r is Some == resolved(importer@, specifier@) is Some,
        r matches Some(p) ==> Some(p@) == resolved(importer@, specifier@),
{
    let mut stack = split_segments(importer);
    let ghost whole = segment_views(stack@);
    stack.pop();
    assert(segment_views(stack@) == whole.drop_last());
    let segs = split_segments(specifier);
    let ghost start = segment_views(stack@);
    let ghost all = segment_views(segs@);
    let mut k: usize = 0;
    assert(all.skip(0) == all);
    while k < segs.len()
        invariant
            k <= segs.len(),
            all == segment_views(segs@),
            all == segments(specifier@),
            start == segments(importer@).drop_last(),
            walk(start, all) == walk(segment_views(stack@), all.skip(k as int)),
        decreases segs.len() - k,
    {
        let seg = &segs[k];
        let ghost cur = segment_views(stack@);
        proof {
            let rest = all.skip(k as int);
            assert(rest[0] == seg@);
            assert(rest.skip(1) == all.skip(k + 1));
        }
        let dot = seg.len() == 1 && seg[0] == DOT;
        let dotdot = seg.len() == 2 && seg[0] == DOT && seg[1] == DOT;
        assert(dot == is_dot(seg@)) by {
            if dot {
                assert(seg@ == seq![DOT]);
            }
        }
        assert(dotdot == is_dotdot(seg@)) by {
            if dotdot {
                assert(seg@ == seq![DOT, DOT]);
            }
        }
        if seg.len() == 0 || dot {
        } else if dotdot {
            if stack.len() == 0 {
                return None;
            }
            stack.pop();
            assert(segment_views(stack@) == cur.drop_last());
        } else {
            let copy = to_vec(seg.as_slice());
            stack.push(copy);
            assert(segment_views(stack@) == cur.push(seg@));
        }
        k += 1;
    }
    assert(all.skip(segs.len() as int).len() == 0);
    if stack.len() == 0 {
        None
    } else {
        Some(join_segments(&stack))
    }
}

} // verus!
