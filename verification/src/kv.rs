use vstd::prelude::*;

use crate::text::find_char;
use crate::text::find_index;
use crate::text::is_ascii_alnum;
use crate::text::is_ws_char;
use crate::text::lemma_find_index;
use crate::text::lemma_find_index_of;
use crate::text::lemma_trim_ws_id;
use crate::text::subrange_chars;
use crate::text::trim_bounds;
use crate::text::trim_end;
use crate::text::trim_ws;

verus! {

/// The shape of one line of key/value payload data.
pub ghost enum LineKind {
    /// Nothing but whitespace.
    Blank,
    /// A (trimmed) table header, beginning with `[`.
    Header(Seq<char>),
    /// A `key = value` pair, both sides trimmed.
    Pair(Seq<char>, Seq<char>),
    /// Anything else; such a line fails the parse.
    Bad,
}

/// Classifies one payload line: blank, table header, `key = value` (split at
/// the first `=`, both sides trimmed), or malformed.
pub open spec fn classify_line(l: Seq<char>) -> LineKind {
    let t = trim_ws(l);
    if t.len() == 0 {
        LineKind::Blank
    } else if t[0] == '[' {
        LineKind::Header(t)
    } else {
        let e = find_index(t, '=');
        if e < 0 {
            LineKind::Bad
        } else {
            LineKind::Pair(trim_ws(t.take(e)), trim_ws(t.skip(e + 1)))
        }
    }
}

/// The runtime counterpart of [`LineKind`], carrying character vectors.
pub enum LineParts {
    Blank,
    Header(Vec<char>),
    Pair(Vec<char>, Vec<char>),
    Bad,
}

/// Whether the runtime classification matches the specification one.
pub open spec fn line_parts_match(r: LineParts, l: Seq<char>) -> bool {
    match r {
        LineParts::Blank => classify_line(l) is Blank,
        LineParts::Header(h) => classify_line(l) == LineKind::Header(h@),
        LineParts::Pair(k, v) => classify_line(l) == LineKind::Pair(k@, v@),
        LineParts::Bad => classify_line(l) is Bad,
    }
}

/// Runtime classification of one payload line.
pub fn classify_parts(l: &Vec<char>) -> (r: LineParts)
    ensures
        line_parts_match(r, l@),
{
    let n: usize = l.len();
    let (a, b) = trim_bounds(l, 0, n);
    proof {
        assert(l@.subrange(0, n as int) =~= l@);
    }
    let t = subrange_chars(l, a, b);
    if t.len() == 0 {
        return LineParts::Blank;
    }
    if t[0] == '[' {
        return LineParts::Header(t);
    }
    match find_char(&t, '=') {
        None => LineParts::Bad,
        Some(e) => {
            proof {
                lemma_find_index(t@, '=');
            }
            let (ka, kb) = trim_bounds(&t, 0, e);
            let key = subrange_chars(&t, ka, kb);
            let (va, vb) = trim_bounds(&t, e + 1, t.len());
            let val = subrange_chars(&t, va, vb);
            proof {
                lemma_find_index(t@, '=');
                assert(t@.subrange(0, e as int) =~= t@.take(e as int));
                assert(t@.subrange(e as int + 1, t@.len() as int) =~= t@.skip(e as int + 1));
            }
            LineParts::Pair(key, val)
        },
    }
}

/// A `key = value` line as this library writes it: single spaces around the
/// equals sign.
pub open spec fn kv_line(key: Seq<char>, val: Seq<char>) -> Seq<char> {
    key + seq![' ', '=', ' '] + val
}

/// A written `key = value` line classifies back into its key and value.
pub proof fn lemma_classify_kv(key: Seq<char>, val: Seq<char>)
    requires
        key.len() > 0,
        forall|j: int| 0 <= j < key.len() ==> is_ascii_alnum(key[j]),
        val.len() > 0,
        !is_ws_char(val[0]),
        !is_ws_char(val.last()),
    ensures
        classify_line(kv_line(key, val)) == LineKind::Pair(key, val),
{
    let l = kv_line(key, val);
    let klen = key.len() as int;
    assert(l[0] == key[0]);
    assert(!is_ws_char(key[0]));
    assert(l.last() == val.last());
    lemma_trim_ws_id(l);
    assert(l[klen + 1] == '=');
    assert forall|j: int| 0 <= j < klen + 1 implies l[j] != '=' by {
        if j < klen {
            assert(l[j] == key[j]);
        } else {
            assert(l[j] == ' ');
        }
    }
    lemma_find_index_of(l, '=', klen + 1);
    let kpart = l.take(klen + 1);
    assert(kpart[0] == key[0]);
    assert(trim_ws(kpart) == trim_end(kpart));
    assert(kpart.last() == ' ');
    assert(kpart.drop_last() =~= key);
    assert(trim_end(kpart) == trim_end(key));
    assert(!is_ws_char(key.last()));
    assert(trim_end(key) == key);
    let vpart = l.skip(klen + 2);
    assert(vpart[0] == ' ');
    assert(vpart.drop_first() =~= val);
    assert(trim_ws(vpart) == trim_ws(val));
    lemma_trim_ws_id(val);
}

/// A bracketed, whitespace-free header line classifies back to itself.
pub proof fn lemma_classify_header(h: Seq<char>)
    requires
        h.len() > 0,
        h[0] == '[',
        !is_ws_char(h.last()),
        !is_ws_char(h[0]),
    ensures
        classify_line(h) == LineKind::Header(h),
{
    lemma_trim_ws_id(h);
}

} // verus!
