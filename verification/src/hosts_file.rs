use vstd::prelude::*;

verus! {

/// The byte that opens a comment line.
pub const COMMENT: u8 = 35;

/// A space, a tab, a carriage return or a line feed.
pub open spec fn is_space(b: u8) -> bool {
    b == 32 || b == 9 || b == 13 || b == 10
}

/// The line holds nothing but white space.
pub open spec fn is_blank(line: Seq<u8>) -> bool {
    forall|i: int| 0 <= i < line.len() ==> is_space(#[trigger] line[i])
}

/// The bytes from `start` up to `end` are the line without the white space
/// around it.
pub open spec fn is_trimmed(line: Seq<u8>, start: int, end: int) -> bool {
    &&& 0 <= start < end <= line.len()
    &&& !is_space(line[start])
    &&& !is_space(line[end - 1])
    &&& forall|i: int| 0 <= i < start ==> is_space(#[trigger] line[i])
    &&& forall|i: int| end <= i < line.len() ==> is_space(#[trigger] line[i])
}

/// The first byte of the line that is no white space opens a comment.
pub open spec fn is_comment(line: Seq<u8>) -> bool {
    exists|start: int, end: int| is_trimmed(line, start, end) && line[start] == COMMENT
}

/// A line has one trimmed range at most.
pub proof fn lemma_trimmed_unique(line: Seq<u8>, s1: int, e1: int, s2: int, e2: int)
    requires
        is_trimmed(line, s1, e1),
        is_trimmed(line, s2, e2),
    ensures
        s1 == s2,
        e1 == e2,
{
    if s1 < s2 {
        assert(is_space(line[s1]));
    }
    if s2 < s1 {
        assert(is_space(line[s2]));
    }
    if e1 < e2 {
        assert(is_space(line[e2 - 1]));
    }
    if e2 < e1 {
        assert(is_space(line[e1 - 1]));
    }
}

/// Whether `b` is white space.
fn space(b: u8) -> (r: bool)
    ensures
        r == is_space(b),
{
    b == 32 || b == 9 || b == 13 || b == 10
}

/// Finds the host entry on one line of the hosts file: the range of bytes
/// that is left when the white space around it is taken away. A blank line
/// and a comment line hold no entry.
pub fn entry_of(line: &[u8]) -> (r: Option<(usize, usize)>)
    ensures
        r.is_none() <==> is_blank(line@) || is_comment(line@),
        r.is_some() ==> is_trimmed(line@, r.unwrap().0 as int, r.unwrap().1 as int),
{
    let n = line.len();
    let mut start: usize = 0;
    while start < n && space(line[start])
        invariant
            n == line@.len(),
            start <= n,
            forall|i: int| 0 <= i < start ==> is_space(#[trigger] line@[i]),
        decreases n - start,
    {
        start = start + 1;
    }
    if start == n {
        return None;
    }
    let mut end: usize = n;
    while space(line[end - 1])
        invariant
            n == line@.len(),
            start < end <= n,
            !is_space(line@[start as int]),
            forall|i: int| end <= i < n ==> is_space(#[trigger] line@[i]),
        decreases end,
    {
        end = end - 1;
    }
    assert(is_trimmed(line@, start as int, end as int));
    assert(!is_blank(line@)) by {
        if is_blank(line@) {
            assert(is_space(line@[start as int]));
        }
    }
    if line[start] == COMMENT {
        return None;
    }
    assert(!is_comment(line@)) by {
        if is_comment(line@) {
            let (s, e) = choose|s: int, e: int| is_trimmed(line@, s, e) && line@[s] == COMMENT;
            lemma_trimmed_unique(line@, s, e, start as int, end as int);
        }
    }
    Some((start, end))
}

} // verus!
