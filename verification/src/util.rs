//! Small verified helpers shared by the other modules: byte-slice and
//! string equality, and newline splitting.

use vstd::prelude::*;

verus! {

use vstd::string::StrSliceExecFns;
use vstd::string::StringExecFns;
use vstd::string::StringSliceAdditionalSpecFns;

/// Exact byte-for-byte equality of two byte slices.
pub fn bytes_eq(a: &[u8], b: &[u8]) -> (r: bool)
    ensures
        r <==> a@ == b@,
{
    if a.len() != b.len() {
        return false;
    }
    let mut i: usize = 0;
    while i < a.len()
        invariant
            i <= a@.len(),
            a@.len() == b@.len(),
            forall|j: int| 0 <= j < i ==> a@[j] == b@[j],
        decreases a@.len() - i,
    {
        if a[i] != b[i] {
            return false;
        }
        i = i + 1;
    }
    proof {
        assert(a@ =~= b@);
    }
    true
}

/// Equality of two string slices, decided on their UTF-8 bytes.
pub fn str_eq(a: &str, b: &str) -> (r: bool)
    ensures
        r <==> a@ == b@,
{
    let r = bytes_eq(a.as_bytes(), b.as_bytes());
    proof {
        if a.spec_bytes() == b.spec_bytes() {
            vstd::utf8::encode_utf8_decode_utf8(a@);
            vstd::utf8::encode_utf8_decode_utf8(b@);
        }
    }
    r
}

/// Number of characters before the first newline of `s` (all of `s` if
/// it holds none).
pub open spec fn first_line_len(s: Seq<char>) -> nat
    decreases s.len(),
{
    if s.len() == 0 {
        0
    } else if s[0] == '\n' {
        0
    } else {
        1 + first_line_len(s.drop_first())
    }
}

/// The nonempty maximal newline-free segments of `s`, in order.
pub open spec fn spec_split_newlines(s: Seq<char>) -> Seq<Seq<char>>
    decreases s.len(),
{
    if s.len() == 0 {
        seq![]
    } else {
        let n = first_line_len(s) as int;
        if n == 0 {
            spec_split_newlines(s.skip(1))
        } else if n < s.len() {
            seq![s.take(n)] + spec_split_newlines(s.skip(n + 1))
        } else {
            seq![s.take(s.len() as int)]
        }
    }
}

proof fn lemma_first_line_len_at(s: Seq<char>, k: int)
    requires
        0 <= k <= s.len(),
        forall|j: int| 0 <= j < k ==> s[j] != '\n',
        k == s.len() || s[k] == '\n',
    ensures
        first_line_len(s) == k,
    decreases s.len(),
{
    if s.len() == 0 {
    } else if s[0] == '\n' {
    } else {
        assert(forall|j: int| 0 <= j < k - 1 ==> s.drop_first()[j] != '\n');
        lemma_first_line_len_at(s.drop_first(), k - 1);
    }
}

/// Splits `text` on newline characters and keeps the nonempty lines,
/// in order.
pub fn split_newlines(text: &str) -> (lines: Vec<String>)
    ensures
        lines@.map_values(|l: String| l@) == spec_split_newlines(text@),
{
    let len = text.unicode_len();
    let mut lines: Vec<String> = Vec::new();
    let mut pos: usize = 0;
    proof {
        assert(text@.skip(0) =~= text@);
        assert(lines@.map_values(|l: String| l@) =~= Seq::<Seq<char>>::empty());
    }
    while pos < len
        invariant
            pos <= len,
            len == text@.len(),
            lines@.map_values(|l: String| l@) + spec_split_newlines(text@.skip(pos as int))
                =~= spec_split_newlines(text@),
        decreases len - pos,
    {
        let ghost tail = text@.skip(pos as int);
        let mut end: usize = pos;
        while end < len && text.get_char(end) != '\n'
            invariant
                pos <= end <= len,
                len == text@.len(),
                forall|j: int| pos <= j < end ==> text@[j] != '\n',
            decreases len - end,
        {
            end = end + 1;
        }
        proof {
            assert(forall|j: int| 0 <= j < end - pos ==> tail[j] != '\n');
            assert(end - pos == tail.len() || tail[end - pos] == '\n');
            lemma_first_line_len_at(tail, end - pos);
        }
        if end > pos {
            let line = text.substring_char(pos, end);
            let owned = String::from_str(line);
            lines.push(owned);
            proof {
                assert(line@ =~= tail.take(end - pos));
            }
        }
        proof {
            if end < len {
                assert(tail.skip(end - pos + 1) =~= text@.skip(end + 1));
            }
        }
        pos = if end < len {
            end + 1
        } else {
            end
        };
        proof {
            if pos == len {
                assert(text@.skip(pos as int) =~= Seq::<char>::empty());
            }
        }
    }
    proof {
        assert(text@.skip(len as int) =~= Seq::<char>::empty());
        assert(lines@.map_values(|l: String| l@) =~= spec_split_newlines(text@));
    }
    lines
}

} // verus!
