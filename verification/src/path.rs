//! The file name of a path, as `Path::file_name` gives it for Unix paths:
//! the last component, ignoring trailing separators and `.` components;
//! none when the path is empty, is the root, or ends in `..`.
use vstd::prelude::*;
use crate::text::{push_str, string_from_chars};

verus! {

/// The index of the last `/` of `s`, or -1 when there is none.
pub open spec fn last_slash(s: Seq<char>) -> int
    decreases s.len(),
{
    if s.len() == 0 {
        -1
    } else if s.last() == '/' {
        s.len() - 1
    } else {
        last_slash(s.drop_last())
    }
}

pub proof fn lemma_last_slash(s: Seq<char>)
    ensures
        -1 <= last_slash(s) < s.len(),
        s.len() > 0 && s.last() != '/' ==> last_slash(s) < s.len() - 1,
        last_slash(s) >= 0 ==> s[last_slash(s)] == '/',
        forall|j: int| last_slash(s) < j < s.len() ==> s[j] != '/',
    decreases s.len(),
{
    if s.len() > 0 && s.last() != '/' {
        let t = s.drop_last();
        lemma_last_slash(t);
        assert forall|j: int| last_slash(s) < j < s.len() implies s[j] != '/' by {
            if j < s.len() - 1 {
                assert(t[j] == s[j]);
            }
        }
    }
}

/// `k` is the last `/` of `s` (or -1) when `s[k]` is `/` and none follows.
proof fn lemma_last_slash_at(s: Seq<char>, k: int)
    requires
        -1 <= k < s.len(),
        k >= 0 ==> s[k] == '/',
        forall|j: int| k < j < s.len() ==> s[j] != '/',
    ensures
        last_slash(s) == k,
    decreases s.len(),
{
    if s.len() > 0 && k < s.len() - 1 {
        lemma_last_slash_at(s.drop_last(), k);
    }
}

/// The final component of a Unix path, if it names a file or directory.
pub open spec fn file_name_of(s: Seq<char>) -> Option<Seq<char>>
    decreases s.len(),
{
    if s.len() == 0 {
        None
    } else if s.last() == '/' {
        file_name_of(s.drop_last())
    } else {
        let k = last_slash(s);
        let seg = s.subrange(k + 1, s.len() as int);
        if seg == seq!['.'] {
            proof {
                lemma_last_slash(s);
            }
            file_name_of(s.subrange(0, k + 1))
        } else if seg == seq!['.', '.'] {
            None
        } else {
            Some(seg)
        }
    }
}

/// The file name of a path (`Path::new(path).file_name()`).
pub fn file_name(path: &str) -> (r: Option<String>)
    ensures
        match r {
            Some(name) => file_name_of(path@) == Some(name@),
            None => file_name_of(path@) is None,
        },
{
    let mut chars: Vec<char> = Vec::new();
    push_str(&mut chars, path);
    assert(chars@ =~= path@);
    let mut end: usize = chars.len();
    assert(chars@.subrange(0, end as int) =~= path@);
    loop
        invariant
            end <= chars@.len(),
            file_name_of(chars@.subrange(0, end as int)) == file_name_of(path@),
        decreases end,
    {
        let ghost s = chars@.subrange(0, end as int);
        if end == 0 {
            return None;
        }
        if chars[end - 1] == '/' {
            assert(s.drop_last() =~= chars@.subrange(0, end - 1));
            end = end - 1;
            continue;
        }
        let mut k: usize = end;
        while k > 0 && chars[k - 1] != '/'
            invariant
                k <= end,
                end <= chars@.len(),
                forall|j: int| k <= j < end ==> chars@[j] != '/',
            decreases k,
        {
            k = k - 1;
        }
        proof {
            lemma_last_slash_at(s, k - 1);
        }
        let ghost seg = s.subrange(k as int, end as int);
        if end - k == 1 && chars[k] == '.' {
            assert(seg =~= seq!['.']);
            assert(s.subrange(0, k as int) =~= chars@.subrange(0, k as int));
            end = k;
            continue;
        }
        if end - k == 2 && chars[k] == '.' && chars[k + 1] == '.' {
            assert(seg =~= seq!['.', '.']);
            return None;
        }
        proof {
            assert(seg.len() == end - k);
            if seg.len() >= 1 {
                assert(seg[0] == chars@[k as int]);
            }
            if seg.len() == 2 {
                assert(seg[1] == chars@[k + 1]);
            }
            assert(seg != seq!['.']);
            assert(seg != seq!['.', '.']);
        }
        let mut name: Vec<char> = Vec::new();
        let mut i: usize = k;
        while i < end
            invariant
                k <= i <= end,
                end <= chars@.len(),
                name@ == chars@.subrange(k as int, i as int),
            decreases end - i,
        {
            name.push(chars[i]);
            assert(chars@.subrange(k as int, i + 1) =~= chars@.subrange(k as int, i as int).push(
                chars@[i as int],
            ));
            i = i + 1;
        }
        assert(name@ =~= seg);
        return Some(string_from_chars(&name));
    }
}

} // verus!
