//! Paths in the manner of Node: segments between slashes, where `.` stays in
//! place and `..` steps back.

use vstd::prelude::*;
use vstd::string::*;
use crate::path::is_absolute_path;

verus! {

/// The segment that begins at `from`: the characters up to the next slash.
pub open spec fn segment_end(path: Seq<char>, from: int) -> int
    decreases path.len() - from,
{
    if from < 0 || from >= path.len() || path[from] == '/' {
        from
    } else {
        segment_end(path, from + 1)
    }
}

/// The segments of `path` from `from` on; slashes part them.
pub open spec fn segments_from(path: Seq<char>, from: int) -> Seq<Seq<char>>
    decreases path.len() + 1 - from,
{
    if from < 0 || from >= path.len() {
        Seq::empty()
    } else {
        let end = segment_end(path, from);
        if end < from || end > path.len() {
            Seq::empty()
        } else {
            seq![path.subrange(from, end)] + segments_from(path, end + 1)
        }
    }
}

/// The end of a segment lies at or behind its start, and within the path.
pub proof fn lemma_segment_end(path: Seq<char>, from: int)
    requires
        0 <= from <= path.len(),
    ensures
        from <= segment_end(path, from) <= path.len(),
    decreases path.len() - from,
{
    if from < path.len() && path[from] != '/' {
        lemma_segment_end(path, from + 1);
    }
}

/// The stack of segments after one more segment: an empty one and `.` are
/// passed over, `..` takes the last one away, any other is put on.
pub open spec fn step(stack: Seq<Seq<char>>, segment: Seq<char>) -> Seq<Seq<char>> {
    if segment.len() == 0 || segment == "."@ {
        stack
    } else if segment == ".."@ {
        if stack.len() > 0 {
            stack.drop_last()
        } else {
            stack
        }
    } else {
        stack.push(segment)
    }
}

/// The stack after the first `n` segments.
pub open spec fn walk(segments: Seq<Seq<char>>, n: int) -> Seq<Seq<char>>
    decreases n,
{
    if 0 < n <= segments.len() {
        step(walk(segments, n - 1), segments[n - 1])
    } else {
        Seq::empty()
    }
}

/// The first `n` segments with a slash between them.
pub open spec fn joined(segments: Seq<Seq<char>>, n: int) -> Seq<char>
    decreases n,
{
    if 0 < n <= segments.len() {
        if n == 1 {
            segments[0]
        } else {
            joined(segments, n - 1) + seq!['/'] + segments[n - 1]
        }
    } else {
        Seq::empty()
    }
}

/// The path without `.` and `..`: its segments walked, joined again, and
/// behind a slash where the path is absolute.
pub open spec fn normalized(path: Seq<char>) -> Seq<char> {
    let segments = segments_from(path, 0);
    let stack = walk(segments, segments.len() as int);
    if is_absolute_path(path) {
        seq!['/'] + joined(stack, stack.len() as int)
    } else {
        joined(stack, stack.len() as int)
    }
}

/// `path` behind `base`: the path itself where it is absolute, else both with a slash between them.
pub open spec fn appended(base: Seq<char>, path: Seq<char>) -> Seq<char> {
    if is_absolute_path(path) {
        path
    } else {
        base + seq!['/'] + path
    }
}

/// The segments of a path.
pub fn split_path(path: &str) -> (segments: Vec<String>)
    ensures
        segments.deep_view() == segments_from(path@, 0),
{
    let n = path.unicode_len();
    let mut segments: Vec<String> = Vec::new();
    let mut from: usize = 0;
    assert(segments.deep_view() =~= Seq::<Seq<char>>::empty());
    assert(Seq::<Seq<char>>::empty() + segments_from(path@, 0) =~= segments_from(path@, 0));
    let mut done = false;
    while !done && from < n
        invariant
            n == path@.len(),
            from <= n,
            !done ==> segments.deep_view() + segments_from(path@, from as int) == segments_from(
                path@,
                0,
            ),
            done ==> segments.deep_view() == segments_from(path@, 0),
        decreases (if done { 0int } else { n + 1 - from }),
    {
        let mut end: usize = from;
        while end < n && path.get_char(end) != '/'
            invariant
                from <= end <= n,
                n == path@.len(),
                segment_end(path@, end as int) == segment_end(path@, from as int),
            decreases n - end,
        {
            end += 1;
        }
        let ghost before = segments.deep_view();
        let piece = path.substring_char(from, end);
        segments.push(String::from_str(piece));
        proof {
            lemma_segment_end(path@, from as int);
            assert(segments.deep_view() =~= before.push(path@.subrange(from as int, end as int)));
            assert(segments.deep_view() + segments_from(path@, end + 1) =~= before + segments_from(
                path@,
                from as int,
            ));
        }
        if end >= n {
            done = true;
            proof {
                assert(segments.deep_view() + Seq::<Seq<char>>::empty() =~= segments.deep_view());
            }
        } else {
            from = end + 1;
        }
    }
    proof {
        assert(segments.deep_view() + Seq::<Seq<char>>::empty() =~= segments.deep_view());
    }
    segments
}

/// The path without `.` and `..`.
pub fn normalize_path(path: &str) -> (r: String)
    ensures
        r@ == normalized(path@),
{
    let segments = split_path(path);
    let ghost all = segments.deep_view();
    let mut stack: Vec<String> = Vec::new();
    assert(stack.deep_view() =~= walk(all, 0));
    let mut i: usize = 0;
    while i < segments.len()
        invariant
            i <= segments@.len(),
            all == segments.deep_view(),
            stack.deep_view() == walk(all, i as int),
        decreases segments@.len() - i,
    {
        let ghost before = stack.deep_view();
        assert(all[i as int] == segments@[i as int]@);
        let segment = &segments[i];
        let len = segment.as_str().unicode_len();
        proof {
            reveal_strlit(".");
            reveal_strlit("..");
        }
        if len == 0 || crate::text::same_text(segment.as_str(), ".") {
        } else if crate::text::same_text(segment.as_str(), "..") {
            if stack.len() > 0 {
                stack.pop();
                assert(stack.deep_view() =~= before.drop_last());
            }
        } else {
            stack.push(segment.clone());
            assert(stack.deep_view() =~= before.push(segment@));
        }
        i += 1;
    }
    let ghost done = stack.deep_view();
    let mut r = String::new();
    let absolute = path.unicode_len() > 0 && path.get_char(0) == '/';
    proof {
        reveal_strlit("/");
    }
    if absolute {
        r.append("/");
    }
    let ghost head = r@;
    assert(head =~= (if absolute {
        seq!['/']
    } else {
        Seq::<char>::empty()
    }));
    let mut k: usize = 0;
    assert(r@ =~= head + joined(done, 0));
    while k < stack.len()
        invariant
            k <= stack@.len(),
            done == stack.deep_view(),
            r@ == head + joined(done, k as int),
        decreases stack@.len() - k,
    {
        assert(done[k as int] == stack@[k as int]@);
        proof {
            reveal_strlit("/");
        }
        if k > 0 {
            r.append("/");
        }
        r.append(stack[k].as_str());
        k += 1;
        assert(r@ =~= head + joined(done, k as int));
    }
    assert(head + joined(done, done.len() as int) =~= normalized(path@));
    r
}

/// `path` behind `base`, without `.` and `..`.
pub fn join(p1: &str, p2: &str) -> (r: String)
    ensures
        r@ == normalized(appended(p1@, p2@)),
{
    proof {
        reveal_strlit("/");
    }
    let absolute = p2.unicode_len() > 0 && p2.get_char(0) == '/';
    if absolute {
        normalize_path(p2)
    } else {
        let mut whole = String::from_str(p1);
        whole.append("/");
        whole.append(p2);
        assert(whole@ =~= appended(p1@, p2@));
        normalize_path(whole.as_str())
    }
}

/// `path` as seen from the working directory `cwd`, without `.` and `..`.
pub fn resolve(cwd: &str, path: &str) -> (r: String)
    ensures
        r@ == normalized(appended(cwd@, path@)),
{
    join(cwd, path)
}

} // verus!
