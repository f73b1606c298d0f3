//! File paths as rows of bytes with `/` between components, as Unix has them.
use vstd::prelude::*;

use crate::encoding;

verus! {

pub const SLASH: u8 = 47;

pub const DOT: u8 = 46;

/// `p` without the separators and the `.` components at its end. It is empty when the path names no
/// component: the root, the current directory, the empty path.
pub open spec fn body(p: Seq<u8>) -> Seq<u8>
    decreases p.len(),
{
    if p.len() == 0 {
        p
    } else if p.last() == SLASH {
        body(p.drop_last())
    } else if p.last() == DOT && (p.len() == 1 || p[p.len() - 2] == SLASH) {
        body(p.drop_last())
    } else {
        p
    }
}

/// Where the part after the last separator starts.
pub open spec fn last_start(p: Seq<u8>) -> int
    decreases p.len(),
{
    if p.len() == 0 || p.last() == SLASH {
        p.len() as int
    } else {
        last_start(p.drop_last())
    }
}

/// Where the last dot stands, or -1.
pub open spec fn last_dot(s: Seq<u8>) -> int
    decreases s.len(),
{
    if s.len() == 0 {
        -1
    } else if s.last() == DOT {
        s.len() - 1
    } else {
        last_dot(s.drop_last())
    }
}

/// The directory part of a path's body, with its separator.
pub open spec fn front(p: Seq<u8>) -> Seq<u8> {
    body(p).take(last_start(body(p)))
}

/// The last component of a path, if it is neither missing nor `..`.
pub open spec fn name_of(p: Seq<u8>) -> Option<Seq<u8>> {
    let name = body(p).skip(last_start(body(p)));
    if name.len() == 0 || name == seq![DOT, DOT] {
        None
    } else {
        Some(name)
    }
}

/// The part of a name before its last dot; all of it, where it has no dot or only a leading one.
pub open spec fn stem_of_name(name: Seq<u8>) -> Seq<u8> {
    if last_dot(name) > 0 {
        name.take(last_dot(name))
    } else {
        name
    }
}

pub open spec fn stem_of(p: Seq<u8>) -> Option<Seq<u8>> {
    match name_of(p) {
        Some(name) => Some(stem_of_name(name)),
        None => None,
    }
}

/// The part of a path's name after its last dot.
pub open spec fn extension_of(p: Seq<u8>) -> Option<Seq<u8>> {
    match name_of(p) {
        Some(name) => if last_dot(name) > 0 {
            Some(name.skip(last_dot(name) + 1))
        } else {
            None
        },
        None => None,
    }
}

/// A directory prefix without the separators at its end.
pub open spec fn tidy(dir: Seq<u8>) -> Seq<u8> {
    if body(dir).len() > 0 || dir.len() == 0 {
        body(dir)
    } else {
        dir.take(1)
    }
}

/// The directory that a path's last component stands in.
pub open spec fn parent_of(p: Seq<u8>) -> Option<Seq<u8>> {
    if body(p).len() > 0 {
        Some(tidy(front(p)))
    } else if p.len() == 0 || p.first() == SLASH {
        None
    } else {
        Some(Seq::empty())
    }
}

/// `p` with the extension of its name replaced, or added. A path without a name stays as it is.
pub open spec fn with_extension_of(p: Seq<u8>, ext: Seq<u8>) -> Seq<u8> {
    match name_of(p) {
        Some(name) => front(p) + stem_of_name(name) + seq![DOT] + ext,
        None => p,
    }
}

pub proof fn lemma_front_is_shorter(p: Seq<u8>)
    requires
        body(p).len() > 0,
    ensures
        front(p).len() < p.len(),
{
    lemma_body(p);
    lemma_last_start_bounds(body(p));
}

/// `p` without the separators at its end, repeated separators and `.` components, but for a `.` that
/// it starts with. Paths that have one plain form have the same components: they count as the same.
pub open spec fn plain(p: Seq<u8>) -> Seq<u8>
    decreases p.len(),
{
    if body(p).len() == 0 {
        p.take(if p.len() == 0 {
            0
        } else {
            1
        })
    } else {
        proof {
            lemma_front_is_shorter(p);
        }
        joined(plain(front(p)), body(p).skip(last_start(body(p))))
    }
}

/// `name` taken relative to `dir`.
pub open spec fn joined(dir: Seq<u8>, name: Seq<u8>) -> Seq<u8> {
    if name.len() > 0 && name.first() == SLASH {
        name
    } else if dir.len() > 0 && dir.last() != SLASH {
        dir + seq![SLASH] + name
    } else {
        dir + name
    }
}

/// The contents of several rows of bytes.
pub open spec fn all_bytes(v: Seq<Vec<u8>>) -> Seq<Seq<u8>> {
    v.map_values(|b: Vec<u8>| b@)
}

/// Where the body of a path ends.
pub fn body_end(p: &[u8]) -> (end: usize)
    ensures
        end <= p@.len(),
        p@.take(end as int) == body(p@),
{
    let mut end: usize = p.len();
    proof {
        assert(p@.take(end as int) =~= p@);
    }
    while end > 0 && (p[end - 1] == SLASH || (p[end - 1] == DOT && (end == 1 || p[end - 2]
        == SLASH)))
        invariant
            end <= p@.len(),
            body(p@.take(end as int)) == body(p@),
        decreases end,
    {
        proof {
            assert(p@.take(end as int).drop_last() =~= p@.take(end - 1));
        }
        end -= 1;
    }
    end
}

proof fn lemma_last_start_bounds(p: Seq<u8>)
    ensures
        0 <= last_start(p) <= p.len(),
        forall|i: int| last_start(p) <= i < p.len() ==> p[i] != SLASH,
        last_start(p) > 0 ==> p[last_start(p) - 1] == SLASH,
    decreases p.len(),
{
    if p.len() > 0 && p.last() != SLASH {
        let q = p.drop_last();
        lemma_last_start_bounds(q);
        assert forall|i: int| last_start(p) <= i < p.len() implies p[i] != SLASH by {
            if i < q.len() {
                assert(q[i] != SLASH);
            }
        }
    }
}

fn name_start(p: &[u8], end: usize) -> (start: usize)
    requires
        end <= p@.len(),
    ensures
        start <= end,
        start == last_start(p@.take(end as int)),
{
    let mut start: usize = end;
    while start > 0 && p[start - 1] != SLASH
        invariant
            start <= end <= p@.len(),
            last_start(p@.take(start as int)) == last_start(p@.take(end as int)),
        decreases start,
    {
        proof {
            assert(p@.take(start as int).drop_last() =~= p@.take(start - 1));
        }
        start -= 1;
    }
    start
}

/// The bytes `p[from..to]`.
pub fn slice_of(p: &[u8], from: usize, to: usize) -> (r: Vec<u8>)
    requires
        from <= to <= p@.len(),
    ensures
        r@ == p@.subrange(from as int, to as int),
{
    let mut r: Vec<u8> = Vec::new();
    let mut i: usize = from;
    while i < to
        invariant
            from <= i <= to <= p@.len(),
            r@ == p@.subrange(from as int, i as int),
        decreases to - i,
    {
        r.push(p[i]);
        i += 1;
    }
    r
}

/// A copy of `p`.
pub fn copy_of(p: &[u8]) -> (r: Vec<u8>)
    ensures
        r@ == p@,
{
    let r = slice_of(p, 0, p.len());
    proof {
        assert(r@ =~= p@);
    }
    r
}

pub fn bytes_eq(a: &[u8], b: &[u8]) -> (r: bool)
    ensures
        r == (a@ == b@),
{
    if a.len() != b.len() {
        return false;
    }
    let mut i: usize = 0;
    while i < a.len()
        invariant
            i <= a@.len(),
            a@.len() == b@.len(),
            forall|j: int| 0 <= j < i ==> a@[j] == b@[j],
        decreases a@.len() - i,
    {
        if a[i] != b[i] {
            return false;
        }
        i += 1;
    }
    assert(a@ =~= b@);
    true
}

/// Where a path's name stands in it.
fn name_span(p: &[u8]) -> (r: Option<(usize, usize)>)
    ensures
        match r {
            Some((start, end)) => {
                &&& start < end <= p@.len()
                &&& body(p@) == p@.take(end as int)
                &&& start == last_start(body(p@))
                &&& name_of(p@) == Some(p@.subrange(start as int, end as int))
            },
            None => name_of(p@) is None,
        },
{
    let end = body_end(p);
    let start = name_start(p, end);
    proof {
        assert(body(p@).skip(start as int) =~= p@.subrange(start as int, end as int));
    }
    if start == end {
        return None;
    }
    if end - start == 2 && p[start] == DOT && p[start + 1] == DOT {
        proof {
            assert(p@.subrange(start as int, end as int) =~= seq![DOT, DOT]);
        }
        return None;
    }
    proof {
        let name = p@.subrange(start as int, end as int);
        if name == seq![DOT, DOT] {
            assert(name[0] == DOT && name[1] == DOT);
        }
    }
    Some((start, end))
}

/// The index of the last dot in `p[from..to]`, if it is not the first byte there.
fn inner_dot(p: &[u8], from: usize, to: usize) -> (r: Option<usize>)
    requires
        from <= to <= p@.len(),
    ensures
        ({
            let k = last_dot(p@.subrange(from as int, to as int));
            match r {
                Some(i) => k > 0 && i == from + k && i < to,
                None => k <= 0,
            }
        }),
{
    let mut i: usize = to;
    while i > from
        invariant
            from <= i <= to <= p@.len(),
            last_dot(p@.subrange(from as int, i as int)) == last_dot(
                p@.subrange(from as int, to as int),
            ),
        decreases i,
    {
        proof {
            assert(p@.subrange(from as int, i as int).drop_last() =~= p@.subrange(
                from as int,
                i - 1,
            ));
        }
        if p[i - 1] == DOT {
            return if i - 1 > from {
                Some(i - 1)
            } else {
                None
            };
        }
        i -= 1;
    }
    None
}

/// The last component of `p`, unless it is missing or `..`.
pub fn path_name(p: &[u8]) -> (r: Option<Vec<u8>>)
    ensures
        match r {
            Some(name) => name_of(p@) == Some(name@),
            None => name_of(p@) is None,
        },
{
    match name_span(p) {
        Some((start, end)) => Some(slice_of(p, start, end)),
        None => None,
    }
}

/// The name of `p` up to its last dot.
pub fn path_stem(p: &[u8]) -> (r: Option<Vec<u8>>)
    ensures
        match r {
            Some(stem) => stem_of(p@) == Some(stem@),
            None => stem_of(p@) is None,
        },
{
    match name_span(p) {
        Some((start, end)) => {
            let ghost name = p@.subrange(start as int, end as int);
            match inner_dot(p, start, end) {
                Some(dot) => {
                    proof {
                        assert(name.take(last_dot(name)) =~= p@.subrange(start as int, dot as int));
                    }
                    Some(slice_of(p, start, dot))
                },
                None => Some(slice_of(p, start, end)),
            }
        },
        None => None,
    }
}

/// The name of `p` after its last dot.
pub fn path_extension(p: &[u8]) -> (r: Option<Vec<u8>>)
    ensures
        match r {
            Some(ext) => extension_of(p@) == Some(ext@),
            None => extension_of(p@) is None,
        },
{
    match name_span(p) {
        Some((start, end)) => {
            let ghost name = p@.subrange(start as int, end as int);
            match inner_dot(p, start, end) {
                Some(dot) => {
                    proof {
                        assert(name.skip(last_dot(name) + 1) =~= p@.subrange(
                            dot + 1,
                            end as int,
                        ));
                    }
                    Some(slice_of(p, dot + 1, end))
                },
                None => None,
            }
        },
        None => None,
    }
}

/// Appends `tail` to `p`.
pub fn append_bytes(p: &mut Vec<u8>, tail: &[u8])
    ensures
        final(p)@ == old(p)@ + tail@,
{
    let ghost start = p@;
    let mut i: usize = 0;
    while i < tail.len()
        invariant
            i <= tail@.len(),
            p@ == start + tail@.take(i as int),
        decreases tail@.len() - i,
    {
        p.push(tail[i]);
        i += 1;
        proof {
            assert(p@ =~= start + tail@.take(i as int));
        }
    }
    proof {
        assert(tail@.take(tail@.len() as int) =~= tail@);
    }
}

/// `p` with the extension of its name replaced by `ext`, or `ext` added.
pub fn with_extension(p: &[u8], ext: &[u8]) -> (r: Vec<u8>)
    ensures
        r@ == with_extension_of(p@, ext@),
{
    match name_span(p) {
        Some((start, end)) => {
            let ghost name = p@.subrange(start as int, end as int);
            let stop: usize = match inner_dot(p, start, end) {
                Some(dot) => dot,
                None => end,
            };
            let mut r = slice_of(p, 0, stop);
            proof {
                assert(body(p@).take(start as int) =~= p@.take(start as int));
                assert(r@ =~= front(p@) + stem_of_name(name));
            }
            r.push(DOT);
            append_bytes(&mut r, ext);
            proof {
                assert(r@ =~= with_extension_of(p@, ext@));
            }
            r
        },
        None => {
            let r = slice_of(p, 0, p.len());
            proof {
                assert(r@ =~= p@);
            }
            r
        },
    }
}

/// The directory of `p`'s last component.
pub fn path_parent(p: &[u8]) -> (r: Option<Vec<u8>>)
    ensures
        match r {
            Some(dir) => parent_of(p@) == Some(dir@),
            None => parent_of(p@) is None,
        },
{
    let end = body_end(p);
    if end == 0 {
        return if p.len() == 0 || p[0] == SLASH {
            None
        } else {
            Some(Vec::new())
        };
    }
    let start = name_start(p, end);
    let dir = slice_of(p, 0, start);
    proof {
        assert(dir@ =~= front(p@));
    }
    let keep = body_end(&dir);
    let stop: usize = if keep > 0 || dir.len() == 0 {
        keep
    } else {
        1
    };
    let r = slice_of(&dir, 0, stop);
    proof {
        assert(r@ =~= dir@.take(stop as int));
        assert(r@ == tidy(front(p@)));
    }
    Some(r)
}

/// `name` taken relative to `dir`.
pub fn join(dir: &[u8], name: &[u8]) -> (r: Vec<u8>)
    ensures
        r@ == joined(dir@, name@),
{
    if name.len() > 0 && name[0] == SLASH {
        let r = slice_of(name, 0, name.len());
        proof {
            assert(r@ =~= name@);
        }
        return r;
    }
    let mut r = slice_of(dir, 0, dir.len());
    proof {
        assert(r@ =~= dir@);
    }
    if dir.len() > 0 && dir[dir.len() - 1] != SLASH {
        r.push(SLASH);
        proof {
            assert(r@ =~= dir@ + seq![SLASH]);
        }
    }
    append_bytes(&mut r, name);
    r
}

/// The plain form of `p`.
pub fn plain_path(p: &[u8]) -> (r: Vec<u8>)
    ensures
        r@ == plain(p@),
    decreases p@.len(),
{
    let end = body_end(p);
    if end == 0 {
        let stop: usize = if p.len() == 0 {
            0
        } else {
            1
        };
        let r = slice_of(p, 0, stop);
        proof {
            assert(r@ =~= p@.take(stop as int));
        }
        return r;
    }
    let start = name_start(p, end);
    let dir = slice_of(p, 0, start);
    let name = slice_of(p, start, end);
    proof {
        assert(dir@ =~= front(p@));
        assert(name@ =~= body(p@).skip(start as int));
        lemma_front_is_shorter(p@);
    }
    join(&plain_path(&dir), &name)
}

/// What `String::from_utf8_lossy` makes of bytes.
pub uninterp spec fn lossy_text(bytes: Seq<u8>) -> Seq<char>;

/// `String::from_utf8_lossy` of std: the text that valid UTF-8 encodes. What stands for invalid
/// sequences is left to the name `lossy_text`.
#[verifier::external_body]
fn text_of_bytes(bytes: &[u8]) -> (r: String)
    ensures
        r@ == lossy_text(bytes@),
        vstd::utf8::valid_utf8(bytes@) ==> r@ == vstd::utf8::decode_utf8(bytes@),
{
    String::from_utf8_lossy(bytes).into_owned()
}

/// The text that bytes stand for: what they encode in UTF-8, or a replacement of what is not valid.
pub open spec fn readable(bytes: Seq<u8>) -> Seq<char> {
    if vstd::utf8::valid_utf8(bytes) {
        vstd::utf8::decode_utf8(bytes)
    } else {
        lossy_text(bytes)
    }
}

/// The text that bytes stand for.
pub fn readable_text(bytes: &[u8]) -> (r: String)
    ensures
        r@ == readable(bytes@),
{
    text_of_bytes(bytes)
}

proof fn lemma_body(p: Seq<u8>)
    ensures
        body(p).len() <= p.len(),
        body(p) == p.take(body(p).len() as int),
        body(p).len() > 0 ==> body(p).last() != SLASH,
        body(p).len() < p.len() ==> p[body(p).len() as int] == SLASH || p[body(p).len() as int]
            == DOT,
    decreases p.len(),
{
    if p.len() > 0 && (p.last() == SLASH || (p.last() == DOT && (p.len() == 1 || p[p.len() - 2]
        == SLASH))) {
        let q = p.drop_last();
        lemma_body(q);
        assert(q.take(body(q).len() as int) =~= p.take(body(q).len() as int));
    } else {
        assert(p.take(p.len() as int) =~= p);
    }
}

proof fn lemma_last_start_of_parts(dir: Seq<u8>, name: Seq<u8>)
    requires
        dir.len() > 0 ==> dir.last() == SLASH,
        forall|i: int| 0 <= i < name.len() ==> name[i] != SLASH,
    ensures
        last_start(dir + name) == dir.len(),
    decreases name.len(),
{
    let p = dir + name;
    if name.len() == 0 {
        assert(p =~= dir);
        lemma_last_start_bounds(dir);
    } else {
        assert(p.last() == name.last());
        assert(p.drop_last() =~= dir + name.drop_last());
        lemma_last_start_of_parts(dir, name.drop_last());
    }
}

pub proof fn lemma_last_dot_of_parts(stem: Seq<u8>, ext: Seq<u8>)
    requires
        forall|i: int| 0 <= i < ext.len() ==> ext[i] != DOT,
    ensures
        last_dot(stem + seq![DOT] + ext) == stem.len(),
    decreases ext.len(),
{
    let s = stem + seq![DOT] + ext;
    if ext.len() == 0 {
        assert(s.last() == DOT);
    } else {
        assert(s.last() == ext.last());
        assert(s.drop_last() =~= stem + seq![DOT] + ext.drop_last());
        lemma_last_dot_of_parts(stem, ext.drop_last());
    }
}

proof fn lemma_name_parts(p: Seq<u8>)
    requires
        name_of(p) is Some,
    ensures
        body(p).len() > 0,
        front(p).len() > 0 ==> front(p).last() == SLASH,
        stem_of_name(name_of(p)->0).len() > 0,
        forall|i: int|
            0 <= i < stem_of_name(name_of(p)->0).len() ==> stem_of_name(name_of(p)->0)[i] != SLASH,
{
    let b = body(p);
    lemma_body(p);
    lemma_last_start_bounds(b);
    let name = b.skip(last_start(b));
    lemma_last_dot_bounds(name);
    assert forall|i: int| 0 <= i < stem_of_name(name).len() implies stem_of_name(name)[i]
        != SLASH by {
        assert(stem_of_name(name)[i] == b[last_start(b) + i]);
    }
}

proof fn lemma_last_dot_bounds(s: Seq<u8>)
    ensures
        -1 <= last_dot(s) < s.len(),
        last_dot(s) >= 0 ==> s[last_dot(s)] == DOT,
    decreases s.len(),
{
    if s.len() > 0 && s.last() != DOT {
        lemma_last_dot_bounds(s.drop_last());
    }
}

proof fn lemma_positions_in_lower_case(p: Seq<u8>)
    ensures
        body(encoding::lowered_bytes(p)) == encoding::lowered_bytes(body(p)),
        last_start(encoding::lowered_bytes(p)) == last_start(p),
        last_dot(encoding::lowered_bytes(p)) == last_dot(p),
    decreases p.len(),
{
    let low = encoding::lowered_bytes(p);
    if p.len() > 0 {
        let q = p.drop_last();
        lemma_positions_in_lower_case(q);
        assert(low.drop_last() =~= encoding::lowered_bytes(q));
        assert(low.last() == encoding::lower_byte(p.last()));
        if p.len() > 1 {
            assert(low[low.len() - 2] == encoding::lower_byte(p[p.len() - 2]));
        }
    } else {
        assert(low =~= p);
    }
}

/// A path in lower case has its stem in lower case.
pub proof fn lemma_stem_in_lower_case(p: Seq<u8>)
    ensures
        stem_of(encoding::lowered_bytes(p)) == (match stem_of(p) {
            Some(stem) => Some(encoding::lowered_bytes(stem)),
            None => None,
        }),
{
    let low = encoding::lowered_bytes(p);
    let b = body(p);
    lemma_positions_in_lower_case(p);
    lemma_positions_in_lower_case(b);
    lemma_last_start_bounds(b);
    let name = b.skip(last_start(b));
    let low_name = body(low).skip(last_start(body(low)));
    assert(low_name =~= encoding::lowered_bytes(name));
    lemma_positions_in_lower_case(name);
    lemma_last_dot_bounds(name);
    if name.len() == 2 {
        assert(low_name[0] == encoding::lower_byte(name[0]));
        assert(low_name[1] == encoding::lower_byte(name[1]));
    }
    assert(name == seq![DOT, DOT] <==> low_name == seq![DOT, DOT]) by {
        if name == seq![DOT, DOT] {
            assert(low_name =~= seq![DOT, DOT]);
        }
        if low_name == seq![DOT, DOT] {
            assert(low_name[0] == DOT && low_name[1] == DOT);
            assert(name =~= seq![DOT, DOT]);
        }
    }
    if last_dot(name) > 0 {
        assert(low_name.take(last_dot(name)) =~= encoding::lowered_bytes(
            name.take(last_dot(name)),
        ));
    }
}

/// The stem of a path in UTF-8 is in UTF-8.
pub proof fn lemma_stem_is_valid(p: Seq<u8>)
    requires
        vstd::utf8::valid_utf8(p),
        stem_of(p) is Some,
    ensures
        vstd::utf8::valid_utf8(stem_of(p)->0),
{
    let b = body(p);
    let start = last_start(b);
    lemma_body(p);
    lemma_last_start_bounds(b);
    let name = b.skip(start);
    lemma_last_dot_bounds(name);
    let stop = if last_dot(name) > 0 {
        start + last_dot(name)
    } else {
        b.len() as int
    };
    if start > 0 {
        assert(p[start - 1] == b[start - 1]);
    }
    if last_dot(name) > 0 {
        assert(p[stop] == name[last_dot(name)]);
    }
    assert(stem_of_name(name) =~= p.subrange(start, stop));
    encoding::lemma_valid_between(p, start, stop);
}

/// The stem of a plain name with an extension is what stands before the extension.
pub proof fn lemma_stem_of_plain_name(stem: Seq<u8>, ext: Seq<u8>)
    requires
        stem.len() > 0,
        ext.len() > 0,
        forall|i: int| 0 <= i < stem.len() ==> stem[i] != SLASH,
        forall|i: int| 0 <= i < ext.len() ==> ext[i] != SLASH && ext[i] != DOT,
    ensures
        stem_of(stem + seq![DOT] + ext) == Some(stem),
{
    let name = stem + seq![DOT] + ext;
    let none = Seq::<u8>::empty();
    assert(none + name =~= name);
    assert forall|i: int| 0 <= i < name.len() implies name[i] != SLASH by {
        if i < stem.len() {
            assert(name[i] == stem[i]);
        } else if i > stem.len() {
            assert(name[i] == ext[i - stem.len() - 1]);
        }
    }
    assert(name.len() >= 3);
    lemma_parts_of_composed(none, name);
    lemma_last_dot_of_parts(stem, ext);
    assert(name.take(last_dot(name)) =~= stem);
}

/// A path made of a directory prefix and an ordinary name falls apart into the two again.
proof fn lemma_parts_of_composed(dir: Seq<u8>, name: Seq<u8>)
    requires
        dir.len() > 0 ==> dir.last() == SLASH,
        name.len() > 0,
        name != seq![DOT],
        name != seq![DOT, DOT],
        forall|i: int| 0 <= i < name.len() ==> name[i] != SLASH,
    ensures
        body(dir + name) == dir + name,
        front(dir + name) == dir,
        name_of(dir + name) == Some(name),
        parent_of(dir + name) == Some(tidy(dir)),
{
    let q = dir + name;
    assert(q.last() == name.last());
    if name.len() == 1 {
        assert(name =~= seq![name[0]]);
    } else {
        assert(q[q.len() - 2] == name[name.len() - 2]);
    }
    assert(body(q) == q);
    lemma_last_start_of_parts(dir, name);
    assert(q.skip(dir.len() as int) =~= name);
    assert(q.take(dir.len() as int) =~= dir);
}

/// Giving a file another extension keeps it in its directory, under a name that is its stem, a dot
/// and the extension.
pub proof fn law_with_extension_stays_beside(p: Seq<u8>, ext: Seq<u8>)
    requires
        name_of(p) is Some,
        ext.len() > 0,
        forall|i: int| 0 <= i < ext.len() ==> ext[i] != SLASH,
    ensures
        parent_of(with_extension_of(p, ext)) == parent_of(p),
        name_of(with_extension_of(p, ext)) == Some(stem_of_name(name_of(p)->0) + seq![DOT] + ext),
{
    let stem = stem_of_name(name_of(p)->0);
    let name = stem + seq![DOT] + ext;
    let dir = front(p);
    lemma_name_parts(p);
    assert(with_extension_of(p, ext) =~= dir + name);
    assert forall|i: int| 0 <= i < name.len() implies name[i] != SLASH by {
        if i < stem.len() {
            assert(name[i] == stem[i]);
        } else if i > stem.len() {
            assert(name[i] == ext[i - stem.len() - 1]);
        }
    }
    assert(name.len() >= 3);
    lemma_parts_of_composed(dir, name);
}

/// An extension that was given to a file is the one it has, and the stem does not change.
pub proof fn law_with_extension_reads_back(p: Seq<u8>, ext: Seq<u8>)
    requires
        name_of(p) is Some,
        ext.len() > 0,
        forall|i: int| 0 <= i < ext.len() ==> ext[i] != SLASH && ext[i] != DOT,
    ensures
        extension_of(with_extension_of(p, ext)) == Some(ext),
        stem_of(with_extension_of(p, ext)) == stem_of(p),
{
    let stem = stem_of_name(name_of(p)->0);
    let name = stem + seq![DOT] + ext;
    law_with_extension_stays_beside(p, ext);
    lemma_name_parts(p);
    lemma_last_dot_of_parts(stem, ext);
    assert(name.skip(last_dot(name) + 1) =~= ext);
    assert(name.take(last_dot(name)) =~= stem);
}

/// `dir` is a directory as it stands before a name: nothing, or something that ends in a separator.
pub open spec fn is_dir_prefix(dir: Seq<u8>) -> bool {
    dir.len() > 0 ==> dir.last() == SLASH
}

/// `part` is a piece of a name: not empty, and without a separator.
pub open spec fn is_name_part(part: Seq<u8>) -> bool {
    part.len() > 0 && forall|i: int| 0 <= i < part.len() ==> part[i] != SLASH
}

/// A path put together from a directory, a stem and an extension has that stem and that extension,
/// and another extension takes the place of its own.
pub proof fn law_path_falls_apart(dir: Seq<u8>, stem: Seq<u8>, ext: Seq<u8>, other: Seq<u8>)
    requires
        is_dir_prefix(dir),
        is_name_part(stem),
        is_name_part(ext),
        forall|i: int| 0 <= i < ext.len() ==> ext[i] != DOT,
    ensures
        ({
            let p = dir + stem + seq![DOT] + ext;
            &&& name_of(p) == Some(stem + seq![DOT] + ext)
            &&& stem_of(p) == Some(stem)
            &&& extension_of(p) == Some(ext)
            &&& parent_of(p) == Some(tidy(dir))
            &&& with_extension_of(p, other) == dir + stem + seq![DOT] + other
        }),
{
    let name = stem + seq![DOT] + ext;
    let p = dir + stem + seq![DOT] + ext;
    assert(p =~= dir + name);
    assert forall|i: int| 0 <= i < name.len() implies name[i] != SLASH by {
        if i < stem.len() {
            assert(name[i] == stem[i]);
        } else if i > stem.len() {
            assert(name[i] == ext[i - stem.len() - 1]);
        }
    }
    assert(name.len() >= 3);
    lemma_parts_of_composed(dir, name);
    lemma_last_dot_of_parts(stem, ext);
    assert(name.take(last_dot(name)) =~= stem);
    assert(name.skip(last_dot(name) + 1) =~= ext);
}

proof fn lemma_no_dot(s: Seq<u8>)
    requires
        forall|i: int| 1 <= i < s.len() ==> s[i] != DOT,
    ensures
        last_dot(s) <= 0,
    decreases s.len(),
{
    if s.len() > 0 {
        lemma_no_dot(s.drop_last());
    }
}

/// A name without a dot, or with one at its start only, is its own stem and has no extension, and
/// another extension is added to it.
pub proof fn law_path_without_extension(dir: Seq<u8>, name: Seq<u8>, other: Seq<u8>)
    requires
        is_dir_prefix(dir),
        is_name_part(name),
        name != seq![DOT],
        forall|i: int| 1 <= i < name.len() ==> name[i] != DOT,
    ensures
        name_of(dir + name) == Some(name),
        stem_of(dir + name) == Some(name),
        extension_of(dir + name) is None,
        parent_of(dir + name) == Some(tidy(dir)),
        with_extension_of(dir + name, other) == dir + name + seq![DOT] + other,
{
    if name == seq![DOT, DOT] {
        assert(name[1] == DOT);
    }
    lemma_parts_of_composed(dir, name);
    lemma_no_dot(name);
}

/// The directory of a path is what stands before the last separators, and the root or nothing where
/// that is all there is.
pub proof fn law_directory_of_a_path(dir: Seq<u8>)
    requires
        dir.len() > 0,
        dir.last() != SLASH,
        dir.last() != DOT,
    ensures
        tidy(dir + seq![SLASH]) == dir,
        tidy(dir + seq![SLASH, SLASH]) == dir,
        tidy(seq![SLASH]) == seq![SLASH],
        tidy(Seq::empty()) == Seq::<u8>::empty(),
{
    reveal_with_fuel(body, 3);
    assert((dir + seq![SLASH]).drop_last() =~= dir);
    assert((dir + seq![SLASH, SLASH]).drop_last().drop_last() =~= dir);
    assert(seq![SLASH].drop_last() =~= Seq::<u8>::empty());
    assert(seq![SLASH].take(1) =~= seq![SLASH]);
    assert(Seq::<u8>::empty().take(0) =~= Seq::<u8>::empty());
}

proof fn lemma_body_before_separators(p: Seq<u8>)
    ensures
        body(p + seq![SLASH]) == body(p),
        body(p + seq![SLASH, DOT]) == body(p),
{
    let one = p + seq![SLASH];
    let two = p + seq![SLASH, DOT];
    assert(one.drop_last() =~= p);
    assert(two.drop_last() =~= one);
    assert(two[two.len() - 2] == SLASH);
    assert(two.last() == DOT);
    assert(one.last() == SLASH);
    assert(body(two) == body(one));
}

/// Separators and a `.` at the end of a path change neither its name nor its directory, and it stays
/// the same path.
pub proof fn law_separators_at_the_end_do_not_matter(p: Seq<u8>)
    requires
        p.len() > 0,
    ensures
        name_of(p + seq![SLASH]) == name_of(p),
        name_of(p + seq![SLASH, DOT]) == name_of(p),
        parent_of(p + seq![SLASH]) == parent_of(p),
        parent_of(p + seq![SLASH, DOT]) == parent_of(p),
        plain(p + seq![SLASH]) == plain(p),
        plain(p + seq![SLASH, DOT]) == plain(p),
{
    lemma_body_before_separators(p);
    assert((p + seq![SLASH]).take(1) =~= p.take(1));
    assert((p + seq![SLASH, DOT]).take(1) =~= p.take(1));
}

proof fn lemma_parts_of_path(dir: Seq<u8>, name: Seq<u8>)
    requires
        is_dir_prefix(dir),
        is_name_part(name),
        name != seq![DOT],
    ensures
        body(dir + name) == dir + name,
        front(dir + name) == dir,
        body(dir + name).skip(last_start(body(dir + name))) == name,
{
    let q = dir + name;
    assert(q.last() == name.last());
    if name.len() == 1 {
        assert(name =~= seq![name[0]]);
    } else {
        assert(q[q.len() - 2] == name[name.len() - 2]);
    }
    assert(body(q) == q);
    lemma_last_start_of_parts(dir, name);
    assert(q.skip(dir.len() as int) =~= name);
    assert(q.take(dir.len() as int) =~= dir);
}

/// A plain form ends in no separator, but for the root.
proof fn lemma_plain_ends(p: Seq<u8>)
    ensures
        plain(p).len() == 0 || plain(p) == seq![SLASH] || plain(p).last() != SLASH,
{
    if body(p).len() == 0 {
        if p.len() > 0 {
            assert(p.take(1) =~= seq![p[0]]);
        }
    } else {
        lemma_body(p);
        lemma_last_start_bounds(body(p));
        let name = body(p).skip(last_start(body(p)));
        assert(name.len() > 0);
        assert(plain(p).last() == name.last());
        assert(name.last() == body(p).last());
    }
}

/// Two paths are the same exactly where their last components are, and the directories before them.
pub proof fn law_same_path_same_components(
    dir: Seq<u8>,
    name: Seq<u8>,
    other_dir: Seq<u8>,
    other: Seq<u8>,
)
    requires
        is_dir_prefix(dir),
        is_name_part(name),
        name != seq![DOT],
        is_dir_prefix(other_dir),
        is_name_part(other),
        other != seq![DOT],
    ensures
        plain(dir + name) == plain(other_dir + other) <==> plain(dir) == plain(other_dir) && name
            == other,
{
    lemma_parts_of_path(dir, name);
    lemma_parts_of_path(other_dir, other);
    lemma_plain_ends(dir);
    lemma_plain_ends(other_dir);
    let d = plain(dir);
    let e = plain(other_dir);
    let d_slash = if d.len() > 0 && d.last() != SLASH {
        d + seq![SLASH]
    } else {
        d
    };
    let e_slash = if e.len() > 0 && e.last() != SLASH {
        e + seq![SLASH]
    } else {
        e
    };
    assert(plain(dir + name) =~= d_slash + name);
    assert(plain(other_dir + other) =~= e_slash + other);
    if plain(dir + name) == plain(other_dir + other) {
        lemma_last_start_of_parts(d_slash, name);
        lemma_last_start_of_parts(e_slash, other);
        let q = d_slash + name;
        assert(q.skip(d_slash.len() as int) =~= name);
        assert(q.skip(e_slash.len() as int) =~= other);
        assert(q.take(d_slash.len() as int) =~= d_slash);
        assert(q.take(e_slash.len() as int) =~= e_slash);
        assert(d_slash == e_slash);
        if d.len() > 0 && d.last() != SLASH {
            assert(d_slash.drop_last() =~= d);
            if e.len() > 0 && e.last() != SLASH {
                assert(e_slash.drop_last() =~= e);
            } else {
                assert(e == seq![SLASH]);
                assert(d_slash.len() == 1);
            }
        } else if e.len() > 0 && e.last() != SLASH {
            assert(d_slash.len() == 0 || d == seq![SLASH]);
        }
    }
}

/// Joining puts a separator between a directory and a name, unless one stands there; a name that
/// starts at the root stays as it is.
pub proof fn law_joining(dir: Seq<u8>, name: Seq<u8>)
    requires
        is_name_part(name),
    ensures
        dir.len() > 0 && dir.last() != SLASH ==> joined(dir, name) == dir + seq![SLASH] + name,
        dir.len() == 0 || dir.last() == SLASH ==> joined(dir, name) == dir + name,
        joined(dir, seq![SLASH] + name) == seq![SLASH] + name,
{
}

/// The root, the current directory and the empty path are three paths.
pub proof fn law_paths_without_a_name()
    ensures
        plain(seq![SLASH]) == seq![SLASH],
        plain(seq![DOT]) == seq![DOT],
        plain(Seq::empty()) == Seq::<u8>::empty(),
        name_of(seq![SLASH]) is None,
        name_of(seq![DOT]) is None,
        name_of(Seq::empty()) is None,
        parent_of(seq![SLASH]) is None,
        parent_of(seq![DOT]) == Some(Seq::<u8>::empty()),
        parent_of(Seq::empty()) is None,
{
    reveal_with_fuel(body, 2);
    let none = Seq::<u8>::empty();
    assert(seq![SLASH].drop_last() =~= none);
    assert(seq![DOT].drop_last() =~= none);
    assert(body(seq![SLASH]) =~= none);
    assert(body(seq![DOT]) =~= none);
    assert(seq![SLASH].take(1) =~= seq![SLASH]);
    assert(seq![DOT].take(1) =~= seq![DOT]);
    assert(none.take(0) =~= none);
}

/// A path that ends in `..` has no name, and so no extension to change.
pub proof fn law_parent_component_is_no_name(dir: Seq<u8>, ext: Seq<u8>)
    requires
        is_dir_prefix(dir),
    ensures
        name_of(dir + seq![DOT, DOT]) is None,
        stem_of(dir + seq![DOT, DOT]) is None,
        extension_of(dir + seq![DOT, DOT]) is None,
        parent_of(dir + seq![DOT, DOT]) == Some(tidy(dir)),
        with_extension_of(dir + seq![DOT, DOT], ext) == dir + seq![DOT, DOT],
{
    lemma_parts_of_path(dir, seq![DOT, DOT]);
}

} // verus!
