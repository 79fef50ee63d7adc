use vstd::prelude::*;

verus! {

/// Relies on std's `String::push`: appends the given character to the end of
/// the string. vstd does not specify this method.
pub assume_specification[ String::push ](s: &mut String, ch: char)
    ensures
        final(s)@ == old(s)@.push(ch),
;

/// The characters of a string, as a vector.
pub fn str_chars(s: &str) -> (r: Vec<char>)
    ensures
        r@ == s@,
{
    let n: usize = s.unicode_len();
    let mut r: Vec<char> = Vec::new();
    let mut i: usize = 0;
    while i < n
        invariant
            i <= n,
            n == s@.len(),
            r@ == s@.take(i as int),
        decreases n - i,
    {
        r.push(s.get_char(i));
        i = i + 1;
        proof {
            assert(r@ =~= s@.take(i as int));
        }
    }
    proof {
        assert(s@.take(n as int) =~= s@);
    }
    r
}

/// A string holding exactly the given characters.
pub fn chars_string(v: &Vec<char>) -> (r: String)
    ensures
        r@ == v@,
{
    let mut r = String::new();
    let mut i: usize = 0;
    while i < v.len()
        invariant
            i <= v@.len(),
            r@ == v@.take(i as int),
        decreases v@.len() - i,
    {
        r.push(v[i]);
        i = i + 1;
        proof {
            assert(r@ =~= v@.take(i as int));
        }
    }
    proof {
        assert(v@.take(v@.len() as int) =~= v@);
    }
    r
}

/// Whether two character vectors hold the same characters.
pub fn chars_eq(a: &Vec<char>, b: &Vec<char>) -> (r: bool)
    ensures
        r == (a@ == b@),
{
    if a.len() != b.len() {
        proof {
            assert(a@ == b@ ==> a@.len() == b@.len());
        }
        return false;
    }
    let mut i: usize = 0;
    while i < a.len()
        invariant
            i <= a@.len(),
            a@.len() == b@.len(),
            forall|j: int| 0 <= j < i ==> a@[j] == b@[j],
        decreases a@.len() - i,
    {
        if a[i] != b[i] {
            proof {
                assert(a@ == b@ ==> a@[i as int] == b@[i as int]);
            }
            return false;
        }
        i = i + 1;
    }
    proof {
        assert(a@ =~= b@);
    }
    true
}

/// Appends the characters of `src` to `out`.
pub fn push_chars(out: &mut Vec<char>, src: &Vec<char>)
    ensures
        final(out)@ == old(out)@ + src@,
{
    let mut i: usize = 0;
    while i < src.len()
        invariant
            i <= src@.len(),
            out@ == old(out)@ + src@.take(i as int),
        decreases src@.len() - i,
    {
        out.push(src[i]);
        i = i + 1;
        proof {
            assert(out@ =~= old(out)@ + src@.take(i as int));
        }
    }
    proof {
        assert(old(out)@ + src@.take(src@.len() as int) =~= old(out)@ + src@);
    }
}

/// Appends the characters of the string `src` to `out`.
pub fn push_str_chars(out: &mut Vec<char>, src: &str)
    ensures
        final(out)@ == old(out)@ + src@,
{
    let n: usize = src.unicode_len();
    let mut i: usize = 0;
    while i < n
        invariant
            i <= n,
            n == src@.len(),
            out@ == old(out)@ + src@.take(i as int),
        decreases n - i,
    {
        out.push(src.get_char(i));
        i = i + 1;
        proof {
            assert(out@ =~= old(out)@ + src@.take(i as int));
        }
    }
    proof {
        assert(old(out)@ + src@.take(n as int) =~= old(out)@ + src@);
    }
}

/// A copy of the characters of `v` between `lo` (inclusive) and `hi`
/// (exclusive).
pub fn subrange_chars(v: &Vec<char>, lo: usize, hi: usize) -> (r: Vec<char>)
    requires
        lo <= hi <= v@.len(),
    ensures
        r@ == v@.subrange(lo as int, hi as int),
{
    let mut r: Vec<char> = Vec::new();
    let mut i: usize = lo;
    while i < hi
        invariant
            lo <= i <= hi <= v@.len(),
            r@ == v@.subrange(lo as int, i as int),
        decreases hi - i,
    {
        r.push(v[i]);
        i = i + 1;
        proof {
            assert(r@ =~= v@.subrange(lo as int, i as int));
        }
    }
    r
}

/// The index of the first occurrence of `c` in `s`, or `-1` if `c` does not
/// occur.
pub open spec fn find_index(s: Seq<char>, c: char) -> int
    decreases s.len(),
{
    if s.len() == 0 {
        -1
    } else if s[0] == c {
        0
    } else {
        let r = find_index(s.drop_first(), c);
        if r < 0 {
            -1
        } else {
            r + 1
        }
    }
}

/// [`find_index`] returns the least index holding `c`, or `-1` when there is
/// none.
pub proof fn lemma_find_index(s: Seq<char>, c: char)
    ensures
        find_index(s, c) == -1 || 0 <= find_index(s, c) < s.len(),
        find_index(s, c) >= 0 ==> s[find_index(s, c)] == c,
        forall|j: int| 0 <= j < find_index(s, c) ==> s[j] != c,
        find_index(s, c) == -1 ==> forall|j: int| 0 <= j < s.len() ==> s[j] != c,
    decreases s.len(),
{
    if s.len() > 0 && s[0] != c {
        lemma_find_index(s.drop_first(), c);
        let r = find_index(s.drop_first(), c);
        assert forall|j: int| 0 <= j < find_index(s, c) implies s[j] != c by {
            if j > 0 {
                assert(s.drop_first()[j - 1] == s[j]);
            }
        }
        if find_index(s, c) == -1 {
            assert forall|j: int| 0 <= j < s.len() implies s[j] != c by {
                if j > 0 {
                    assert(s.drop_first()[j - 1] == s[j]);
                }
            }
        }
    }
}

/// If `i` is an occurrence of `c` preceded by no other, then it is what
/// [`find_index`] returns.
pub proof fn lemma_find_index_of(s: Seq<char>, c: char, i: int)
    requires
        0 <= i < s.len(),
        s[i] == c,
        forall|j: int| 0 <= j < i ==> s[j] != c,
    ensures
        find_index(s, c) == i,
{
    lemma_find_index(s, c);
}

/// Runtime search matching [`find_index`].
pub fn find_char(v: &Vec<char>, c: char) -> (r: Option<usize>)
    ensures
        match r {
            Some(i) => find_index(v@, c) == i,
            None => find_index(v@, c) == -1,
        },
{
    let mut i: usize = 0;
    while i < v.len()
        invariant
            i <= v@.len(),
            forall|j: int| 0 <= j < i ==> v@[j] != c,
        decreases v@.len() - i,
    {
        if v[i] == c {
            proof {
                lemma_find_index_of(v@, c, i as int);
            }
            return Some(i);
        }
        i = i + 1;
    }
    proof {
        lemma_find_index(v@, c);
        if find_index(v@, c) >= 0 {
            assert(v@[find_index(v@, c)] == c);
        }
    }
    None
}

/// The index of the first line equal to `tgt`, or `-1` if none is.
pub open spec fn find_line(ls: Seq<Seq<char>>, tgt: Seq<char>) -> int
    decreases ls.len(),
{
    if ls.len() == 0 {
        -1
    } else if ls[0] == tgt {
        0
    } else {
        let r = find_line(ls.drop_first(), tgt);
        if r < 0 {
            -1
        } else {
            r + 1
        }
    }
}

/// [`find_line`] returns the least index equal to `tgt`, or `-1` when there
/// is none.
pub proof fn lemma_find_line(ls: Seq<Seq<char>>, tgt: Seq<char>)
    ensures
        find_line(ls, tgt) == -1 || 0 <= find_line(ls, tgt) < ls.len(),
        find_line(ls, tgt) >= 0 ==> ls[find_line(ls, tgt)] == tgt,
        forall|j: int| 0 <= j < find_line(ls, tgt) ==> ls[j] != tgt,
        find_line(ls, tgt) == -1 ==> forall|j: int| 0 <= j < ls.len() ==> ls[j] != tgt,
    decreases ls.len(),
{
    if ls.len() > 0 && ls[0] != tgt {
        lemma_find_line(ls.drop_first(), tgt);
        assert forall|j: int| 0 <= j < find_line(ls, tgt) implies ls[j] != tgt by {
            if j > 0 {
                assert(ls.drop_first()[j - 1] == ls[j]);
            }
        }
        if find_line(ls, tgt) == -1 {
            assert forall|j: int| 0 <= j < ls.len() implies ls[j] != tgt by {
                if j > 0 {
                    assert(ls.drop_first()[j - 1] == ls[j]);
                }
            }
        }
    }
}

/// If `i` is an occurrence of `tgt` preceded by no other, then it is what
/// [`find_line`] returns.
pub proof fn lemma_find_line_of(ls: Seq<Seq<char>>, tgt: Seq<char>, i: int)
    requires
        0 <= i < ls.len(),
        ls[i] == tgt,
        forall|j: int| 0 <= j < i ==> ls[j] != tgt,
    ensures
        find_line(ls, tgt) == i,
{
    lemma_find_line(ls, tgt);
}

/// The sequence of views of a sequence of character vectors.
pub open spec fn views_of(r: Seq<Vec<char>>) -> Seq<Seq<char>> {
    r.map_values(|l: Vec<char>| l@)
}

/// The segments of `s` delimited by `'\n'`. Always non-empty; a trailing
/// newline yields a final empty segment.
pub open spec fn split_nl(s: Seq<char>) -> Seq<Seq<char>>
    decreases s.len(),
{
    if s.len() == 0 {
        seq![Seq::<char>::empty()]
    } else if s[0] == '\n' {
        seq![Seq::<char>::empty()] + split_nl(s.drop_first())
    } else {
        let rest = split_nl(s.drop_first());
        seq![seq![s[0]] + rest[0]] + rest.drop_first()
    }
}

pub proof fn lemma_split_nl_len(s: Seq<char>)
    ensures
        split_nl(s).len() >= 1,
    decreases s.len(),
{
    if s.len() > 0 {
        lemma_split_nl_len(s.drop_first());
    }
}

/// A newline-free string is a single segment.
pub proof fn lemma_split_nl_free(s: Seq<char>)
    requires
        forall|i: int| 0 <= i < s.len() ==> s[i] != '\n',
    ensures
        split_nl(s) == seq![s],
    decreases s.len(),
{
    if s.len() == 0 {
        assert(split_nl(s) =~~= seq![s]);
    } else {
        assert(forall|i: int|
            0 <= i < s.drop_first().len() ==> #[trigger] s.drop_first()[i] == s[i + 1]);
        lemma_split_nl_free(s.drop_first());
        assert(split_nl(s) =~~= seq![s]);
    }
}

/// Splitting distributes over a newline that follows a newline-free prefix.
pub proof fn lemma_split_nl_concat(a: Seq<char>, b: Seq<char>)
    requires
        forall|i: int| 0 <= i < a.len() ==> a[i] != '\n',
    ensures
        split_nl(a + seq!['\n'] + b) == seq![a] + split_nl(b),
    decreases a.len(),
{
    let s = a + seq!['\n'] + b;
    if a.len() == 0 {
        assert(s[0] == '\n');
        assert(s.drop_first() =~= b);
        assert(split_nl(s) =~~= seq![a] + split_nl(b));
    } else {
        assert(s[0] == a[0]);
        assert(s.drop_first() =~= a.drop_first() + seq!['\n'] + b);
        assert(forall|i: int|
            0 <= i < a.drop_first().len() ==> #[trigger] a.drop_first()[i] == a[i + 1]);
        lemma_split_nl_concat(a.drop_first(), b);
        lemma_split_nl_len(b);
        assert(split_nl(s) =~~= seq![a] + split_nl(b));
    }
}

/// A line, with one trailing carriage return (if any) removed.
pub open spec fn strip_cr(l: Seq<char>) -> Seq<char> {
    if l.len() > 0 && l.last() == '\r' {
        l.drop_last()
    } else {
        l
    }
}

/// Each line with one trailing carriage return removed.
pub open spec fn strip_all(u: Seq<Seq<char>>) -> Seq<Seq<char>> {
    u.map_values(|l: Seq<char>| strip_cr(l))
}

/// The lines of a message: `'\n'`-separated segments, without a final empty
/// segment from a trailing newline, each with one trailing `'\r'` removed.
pub open spec fn msg_lines(s: Seq<char>) -> Seq<Seq<char>> {
    let t = split_nl(s);
    let u = if t.last().len() == 0 {
        t.drop_last()
    } else {
        t
    };
    strip_all(u)
}

/// The lines joined with `'\n'` between them (none at the end).
pub open spec fn join_nl(ls: Seq<Seq<char>>) -> Seq<char>
    decreases ls.len(),
{
    if ls.len() == 0 {
        Seq::empty()
    } else if ls.len() == 1 {
        ls[0]
    } else {
        ls[0] + seq!['\n'] + join_nl(ls.drop_first())
    }
}

/// Conditions under which splitting inverts joining: at least one line, a
/// non-empty final line, no embedded newlines, no line ending in a carriage
/// return.
pub open spec fn joinable_lines(ls: Seq<Seq<char>>) -> bool {
    &&& ls.len() > 0
    &&& ls.last().len() > 0
    &&& forall|i: int, j: int| 0 <= i < ls.len() && 0 <= j < ls[i].len() ==> ls[i][j] != '\n'
    &&& forall|i: int| 0 <= i < ls.len() && ls[i].len() > 0 ==> ls[i].last() != '\r'
}

/// Splitting a joined message into lines gives the lines back.
pub proof fn lemma_msg_lines_join(ls: Seq<Seq<char>>)
    requires
        joinable_lines(ls),
    ensures
        msg_lines(join_nl(ls)) == ls,
    decreases ls.len(),
{
    lemma_split_nl_of_join(ls);
    let t = split_nl(join_nl(ls));
    assert(t.last().len() > 0);
    assert(msg_lines(join_nl(ls)) =~~= ls);
}

/// The split of a join recovers the line list itself (before the trailing
/// cleanup of [`msg_lines`]).
pub proof fn lemma_split_nl_of_join(ls: Seq<Seq<char>>)
    requires
        ls.len() > 0,
        forall|i: int, j: int| 0 <= i < ls.len() && 0 <= j < ls[i].len() ==> ls[i][j] != '\n',
    ensures
        split_nl(join_nl(ls)) == ls,
    decreases ls.len(),
{
    if ls.len() == 1 {
        assert(forall|j: int| 0 <= j < ls[0].len() ==> ls[0][j] != '\n');
        lemma_split_nl_free(ls[0]);
        assert(split_nl(join_nl(ls)) =~~= ls);
    } else {
        let rest = ls.drop_first();
        assert(forall|i: int, j: int|
            0 <= i < rest.len() && 0 <= j < rest[i].len() ==> #[trigger] rest[i][j] == ls[i + 1][j]);
        lemma_split_nl_of_join(rest);
        assert(forall|j: int| 0 <= j < ls[0].len() ==> ls[0][j] != '\n');
        lemma_split_nl_concat(ls[0], join_nl(rest));
        assert(split_nl(join_nl(ls)) =~~= ls);
    }
}

/// Runtime split matching [`split_nl`], starting at `pos`.
fn split_nl_from(v: &Vec<char>, pos: usize) -> (r: Vec<Vec<char>>)
    requires
        pos <= v@.len(),
    ensures
        views_of(r@) == split_nl(v@.skip(pos as int)),
    decreases v@.len() - pos,
{
    if pos == v.len() {
        let mut r: Vec<Vec<char>> = Vec::new();
        r.push(Vec::new());
        proof {
            assert(v@.skip(pos as int) =~= Seq::<char>::empty());
            assert(views_of(r@) =~~= split_nl(v@.skip(pos as int)));
        }
        r
    } else if v[pos] == '\n' {
        let mut rest = split_nl_from(v, pos + 1);
        rest.insert(0, Vec::new());
        proof {
            assert(v@.skip(pos as int).drop_first() =~= v@.skip(pos as int + 1));
            assert(views_of(rest@) =~~= split_nl(v@.skip(pos as int)));
        }
        rest
    } else {
        let mut rest = split_nl_from(v, pos + 1);
        proof {
            lemma_split_nl_len(v@.skip(pos as int + 1));
        }
        let mut first = rest.remove(0);
        first.insert(0, v[pos]);
        rest.insert(0, first);
        proof {
            let s = v@.skip(pos as int);
            assert(s.drop_first() =~= v@.skip(pos as int + 1));
            assert(first@ =~= seq![s[0]] + split_nl(s.drop_first())[0]);
            assert(views_of(rest@) =~~= split_nl(s));
        }
        rest
    }
}

/// Runtime computation of [`msg_lines`].
pub fn msg_lines_exec(v: &Vec<char>) -> (r: Vec<Vec<char>>)
    ensures
        views_of(r@) == msg_lines(v@),
{
    let mut t = split_nl_from(v, 0);
    proof {
        assert(v@.skip(0) =~= v@);
        lemma_split_nl_len(v@);
    }
    if t[t.len() - 1].len() == 0 {
        let _last = t.pop();
    }
    let ghost u = views_of(t@);
    proof {
        let tt = split_nl(v@);
        if tt.last().len() == 0 {
            assert(u =~~= tt.drop_last());
        } else {
            assert(u =~~= tt);
        }
    }
    let mut r: Vec<Vec<char>> = Vec::new();
    let ghost n = t@.len();
    let mut i: usize = 0;
    while i < t.len()
        invariant
            i <= t@.len(),
            t@.len() == n,
            u == views_of(t@),
            r@.len() == i,
            views_of(r@) == strip_all(u.take(i as int)),
        decreases t@.len() - i,
    {
        let line = &t[i];
        let m: usize = line.len();
        let mut stripped = subrange_chars(line, 0, m);
        proof {
            assert(u[i as int] == t@[i as int]@);
            assert(stripped@ =~= u[i as int]);
        }
        if m > 0 && stripped[m - 1] == '\r' {
            let _cr = stripped.pop();
            proof {
                assert(stripped@ =~= strip_cr(u[i as int]));
            }
        }
        proof {
            assert(stripped@ == strip_cr(u[i as int]));
        }
        let ghost prev = views_of(r@);
        let ghost stripped_v = stripped@;
        r.push(stripped);
        i = i + 1;
        proof {
            let lhs = views_of(r@);
            let rhs = strip_all(u.take(i as int));
            assert(r@.len() == i);
            assert forall|k: int| 0 <= k < i implies lhs[k] == rhs[k] by {
                assert(rhs[k] == strip_cr(u.take(i as int)[k]));
                assert(u.take(i as int)[k] == u[k]);
                if k < i - 1 {
                    assert(r@[k] == r@.drop_last()[k]);
                    assert(prev[k] == strip_all(u.take(i as int - 1))[k]);
                    assert(strip_all(u.take(i as int - 1))[k] == strip_cr(u.take(i as int - 1)[k]));
                } else {
                    assert(r@[k]@ == stripped_v);
                }
                assert(lhs[k] == r@[k]@);
            }
            assert(lhs =~~= rhs);
        }
    }
    proof {
        assert(u.take(u.len() as int) =~= u);
        assert(views_of(r@) =~~= msg_lines(v@));
    }
    r
}

/// Appends the lines joined with `'\n'` (none at the end) to `out`.
pub fn push_joined(out: &mut Vec<char>, lines: &Vec<Vec<char>>)
    ensures
        final(out)@ == old(out)@ + join_nl(views_of(lines@)),
{
    let ghost ls = views_of(lines@);
    let mut i: usize = 0;
    while i < lines.len()
        invariant
            i <= lines@.len(),
            ls == views_of(lines@),
            out@ == old(out)@ + join_nl(ls.take(i as int)) + (if i > 0 && i < ls.len() {
                seq!['\n']
            } else {
                Seq::<char>::empty()
            }),
        decreases lines@.len() - i,
    {
        push_chars(out, &lines[i]);
        proof {
            lemma_join_nl_snoc(ls.take(i as int), ls[i as int]);
            assert(ls.take(i as int).push(ls[i as int]) =~~= ls.take(i as int + 1));
        }
        i = i + 1;
        if i < lines.len() {
            out.push('\n');
        }
        proof {
            assert(out@ =~= old(out)@ + join_nl(ls.take(i as int)) + (if i > 0 && i
                < ls.len() {
                seq!['\n']
            } else {
                Seq::<char>::empty()
            }));
        }
    }
    proof {
        assert(ls.take(ls.len() as int) =~= ls);
        assert(out@ =~= old(out)@ + join_nl(ls));
    }
}

/// Joining one more line appends a separator (if anything precedes) and the
/// line.
pub proof fn lemma_join_nl_snoc(ls: Seq<Seq<char>>, l: Seq<char>)
    ensures
        join_nl(ls.push(l)) == if ls.len() == 0 {
            l
        } else {
            join_nl(ls) + seq!['\n'] + l
        },
    decreases ls.len(),
{
    if ls.len() == 0 {
        assert(ls.push(l)[0] =~= l);
        assert(join_nl(ls.push(l)) =~= l);
    } else if ls.len() == 1 {
        let p = ls.push(l);
        assert(p.drop_first() =~~= seq![l]);
        assert(join_nl(seq![l]) == l);
        assert(p[0] == ls[0]);
        assert(join_nl(p) == p[0] + seq!['\n'] + join_nl(p.drop_first()));
        assert(join_nl(ls.push(l)) =~= join_nl(ls) + seq!['\n'] + l);
    } else {
        assert(ls.push(l).drop_first() =~~= ls.drop_first().push(l));
        lemma_join_nl_snoc(ls.drop_first(), l);
        assert(join_nl(ls.push(l)) =~= join_nl(ls) + seq!['\n'] + l);
    }
}

/// A string free of newlines and carriage returns: safe to stand as one
/// line of a message.
pub open spec fn line_safe(s: Seq<char>) -> bool {
    forall|j: int| 0 <= j < s.len() ==> s[j] != '\n' && s[j] != '\r'
}

pub proof fn lemma_safe_concat(a: Seq<char>, b: Seq<char>)
    requires
        line_safe(a),
        line_safe(b),
    ensures
        line_safe(a + b),
{
    assert forall|j: int| 0 <= j < (a + b).len() implies (a + b)[j] != '\n' && (a + b)[j]
        != '\r' by {
        if j < a.len() {
            assert((a + b)[j] == a[j]);
        } else {
            assert((a + b)[j] == b[j - a.len()]);
        }
    }
}

/// Digit strings are line-safe.
pub proof fn lemma_digits_safe(s: Seq<char>)
    requires
        forall|i: int| 0 <= i < s.len() ==> is_ascii_digit_char(s[i]),
    ensures
        line_safe(s),
{
}

/// The digit character for `d` (0 through 9).
pub open spec fn digit_char(d: int) -> char {
    if d == 0 {
        '0'
    } else if d == 1 {
        '1'
    } else if d == 2 {
        '2'
    } else if d == 3 {
        '3'
    } else if d == 4 {
        '4'
    } else if d == 5 {
        '5'
    } else if d == 6 {
        '6'
    } else if d == 7 {
        '7'
    } else if d == 8 {
        '8'
    } else {
        '9'
    }
}

/// The numeric value of a digit character.
pub open spec fn digit_val(c: char) -> int {
    c as u32 - 48
}

/// The decimal digits of `n`, most significant first.
pub open spec fn dec_digits(n: nat) -> Seq<char>
    decreases n,
{
    if n < 10 {
        seq![digit_char(n as int)]
    } else {
        dec_digits(n / 10).push(digit_char((n % 10) as int))
    }
}

/// The decimal spelling of an integer: digits, with a leading minus sign when
/// negative.
pub open spec fn dec_int(n: int) -> Seq<char> {
    if n < 0 {
        seq!['-'] + dec_digits((-n) as nat)
    } else {
        dec_digits(n as nat)
    }
}

/// A non-empty, all-digit string.
pub open spec fn all_digits(s: Seq<char>) -> bool {
    s.len() > 0 && forall|i: int| 0 <= i < s.len() ==> is_ascii_digit_char(s[i])
}

/// A non-empty, all-digit string without a superfluous leading zero.
pub open spec fn canonical_digits(s: Seq<char>) -> bool {
    all_digits(s) && (s.len() == 1 || s[0] != '0')
}

/// The numeric value of a digit string, read in base ten.
pub open spec fn digits_val(s: Seq<char>) -> int
    decreases s.len(),
{
    if s.len() == 0 {
        0
    } else {
        digits_val(s.drop_last()) * 10 + digit_val(s.last())
    }
}

/// A digit string optionally preceded by a minus sign.
pub open spec fn int_digits(s: Seq<char>) -> bool {
    if s.len() > 0 && s[0] == '-' {
        canonical_digits(s.skip(1))
    } else {
        canonical_digits(s)
    }
}

/// The numeric value of a signed digit string.
pub open spec fn int_val(s: Seq<char>) -> int {
    if s.len() > 0 && s[0] == '-' {
        -digits_val(s.skip(1))
    } else {
        digits_val(s)
    }
}

pub proof fn lemma_digits_val_nonneg(s: Seq<char>)
    requires
        forall|i: int| 0 <= i < s.len() ==> is_ascii_digit_char(s[i]),
    ensures
        digits_val(s) >= 0,
    decreases s.len(),
{
    if s.len() > 0 {
        lemma_digits_val_nonneg(s.drop_last());
    }
}

/// The value of a digit-string prefix never exceeds the value of the whole.
pub proof fn lemma_digits_val_prefix(s: Seq<char>, j: int)
    requires
        forall|i: int| 0 <= i < s.len() ==> is_ascii_digit_char(s[i]),
        0 <= j <= s.len(),
    ensures
        digits_val(s.take(j)) <= digits_val(s),
    decreases s.len(),
{
    if j == s.len() {
        assert(s.take(j) =~= s);
    } else {
        assert(s.take(j) =~= s.drop_last().take(j));
        lemma_digits_val_prefix(s.drop_last(), j);
        lemma_digits_val_nonneg(s.drop_last());
    }
}

/// The decimal spelling of `n` consists of canonical digits and reads back as
/// `n`.
pub proof fn lemma_dec_digits(n: nat)
    ensures
        all_digits(dec_digits(n)),
        canonical_digits(dec_digits(n)),
        digits_val(dec_digits(n)) == n,
        n > 0 ==> dec_digits(n)[0] != '0',
    decreases n,
{
    if n < 10 {
        let s0 = seq![digit_char(n as int)];
        assert(s0.drop_last() =~= Seq::<char>::empty());
        assert(digits_val(Seq::<char>::empty()) == 0);
        assert(s0.last() == digit_char(n as int));
        assert(digit_val(digit_char(n as int)) == n);
        assert(digits_val(dec_digits(n)) == n);
    } else {
        lemma_dec_digits(n / 10);
        let p = dec_digits(n / 10);
        let d = digit_char((n % 10) as int);
        assert(p.push(d).drop_last() =~= p);
        assert(p.push(d).last() == d);
        assert(digits_val(dec_digits(n)) == digits_val(p) * 10 + digit_val(d));
        assert(digit_val(d) == n % 10);
        assert(digits_val(p) * 10 + n % 10 == n);
        assert(n / 10 > 0);
        assert(dec_digits(n)[0] == p[0]);
    }
}

/// The signed decimal spelling reads back as the integer itself.
pub proof fn lemma_dec_int(n: int)
    ensures
        int_digits(dec_int(n)),
        int_val(dec_int(n)) == n,
    decreases n,
{
    if n < 0 {
        lemma_dec_digits((-n) as nat);
        let d = dec_digits((-n) as nat);
        let s = seq!['-'] + d;
        assert(s[0] == '-');
        assert(s.skip(1) =~= d);
        assert(d[0] != '0');
    } else {
        lemma_dec_digits(n as nat);
        let s = dec_digits(n as nat);
        assert(s[0] != '-');
    }
}

/// Runtime digit character for `d`.
pub fn digit_char_exec(d: u64) -> (r: char)
    requires
        d < 10,
    ensures
        r == digit_char(d as int),
{
    if d == 0 {
        '0'
    } else if d == 1 {
        '1'
    } else if d == 2 {
        '2'
    } else if d == 3 {
        '3'
    } else if d == 4 {
        '4'
    } else if d == 5 {
        '5'
    } else if d == 6 {
        '6'
    } else if d == 7 {
        '7'
    } else if d == 8 {
        '8'
    } else {
        '9'
    }
}

/// Appends the decimal digits of `n` to `out`.
pub fn push_dec_u64(out: &mut Vec<char>, n: u64)
    ensures
        final(out)@ == old(out)@ + dec_digits(n as nat),
    decreases n,
{
    if n < 10 {
        out.push(digit_char_exec(n));
        proof {
            assert(out@ =~= old(out)@ + dec_digits(n as nat));
        }
    } else {
        push_dec_u64(out, n / 10);
        out.push(digit_char_exec(n % 10));
        proof {
            assert(out@ =~= old(out)@ + dec_digits(n as nat));
        }
    }
}

/// Appends the signed decimal spelling of `n` to `out`.
pub fn push_dec_i64(out: &mut Vec<char>, n: i64)
    requires
        n > i64::MIN,
    ensures
        final(out)@ == old(out)@ + dec_int(n as int),
{
    if n < 0 {
        out.push('-');
        let m: u64 = (-n) as u64;
        push_dec_u64(out, m);
        proof {
            assert(out@ =~= old(out)@ + dec_int(n as int));
        }
    } else {
        push_dec_u64(out, n as u64);
    }
}

/// Runtime check for [`is_ascii_digit_char`].
pub fn check_ascii_digit(c: char) -> (r: bool)
    ensures
        r == is_ascii_digit_char(c),
{
    let u = c as u32;
    48 <= u && u <= 57
}

/// Reads the characters of `v` between `lo` and `hi` as an unsigned decimal
/// number: canonical digits only, value at most `u64::MAX`.
pub fn parse_u64_digits(v: &Vec<char>, lo: usize, hi: usize) -> (r: Option<u64>)
    requires
        lo <= hi <= v@.len(),
    ensures
        ({
            let seg = v@.subrange(lo as int, hi as int);
            match r {
                Some(n) => canonical_digits(seg) && digits_val(seg) == n,
                None => !(canonical_digits(seg) && digits_val(seg) <= u64::MAX),
            }
        }),
{
    let ghost seg = v@.subrange(lo as int, hi as int);
    if lo == hi {
        return None;
    }
    if v[lo] == '0' && hi - lo > 1 {
        return None;
    }
    let mut acc: u64 = 0;
    let mut i: usize = lo;
    while i < hi
        invariant
            lo <= i <= hi <= v@.len(),
            seg == v@.subrange(lo as int, hi as int),
            acc as int == digits_val(seg.take(i - lo)),
            forall|j: int| 0 <= j < i - lo ==> is_ascii_digit_char(seg[j]),
        decreases hi - i,
    {
        let c = v[i];
        let ghost k = i - lo;
        proof {
            assert(seg[k as int] == v@[i as int]);
        }
        if !check_ascii_digit(c) {
            return None;
        }
        let d: u64 = (c as u32 - 48) as u64;
        proof {
            assert(d as int == digit_val(seg[k as int]));
            assert(seg.take(k as int + 1).drop_last() =~= seg.take(k as int));
            assert(seg.take(k as int + 1).last() == seg[k as int]);
        }
        let step = match acc.checked_mul(10) {
            Some(x) => x.checked_add(d),
            None => None,
        };
        match step {
            Some(x) => {
                acc = x;
            },
            None => {
                proof {
                    if canonical_digits(seg) {
                        lemma_digits_val_prefix(seg, k as int + 1);
                        assert(digits_val(seg.take(k as int + 1)) == digits_val(seg.take(k as int))
                            * 10 + digit_val(seg[k as int]));
                    }
                }
                return None;
            },
        }
        i = i + 1;
    }
    proof {
        assert(seg.take(seg.len() as int) =~= seg);
    }
    Some(acc)
}

/// Reads the characters of `v` between `lo` and `hi` as a signed decimal
/// number fitting an `i32`.
pub fn parse_i32_digits(v: &Vec<char>, lo: usize, hi: usize) -> (r: Option<i32>)
    requires
        lo <= hi <= v@.len(),
    ensures
        ({
            let seg = v@.subrange(lo as int, hi as int);
            match r {
                Some(n) => int_digits(seg) && int_val(seg) == n,
                None => !(int_digits(seg) && i32::MIN <= int_val(seg) <= i32::MAX),
            }
        }),
{
    let ghost seg = v@.subrange(lo as int, hi as int);
    if lo < hi && v[lo] == '-' {
        proof {
            assert(seg[0] == '-');
            assert(seg.skip(1) =~= v@.subrange(lo as int + 1, hi as int));
        }
        match parse_u64_digits(v, lo + 1, hi) {
            Some(m) => {
                proof {
                    lemma_digits_val_nonneg(seg.skip(1));
                }
                if m <= 2147483648 {
                    if m == 2147483648 {
                        Some(i32::MIN)
                    } else {
                        Some(-(m as i32))
                    }
                } else {
                    None
                }
            },
            None => {
                proof {
                    if int_digits(seg) {
                        lemma_digits_val_nonneg(seg.skip(1));
                    }
                }
                None
            },
        }
    } else {
        proof {
            assert(seg.len() > 0 ==> seg[0] == v@[lo as int]);
        }
        match parse_u64_digits(v, lo, hi) {
            Some(m) => {
                if m <= 2147483647 {
                    Some(m as i32)
                } else {
                    None
                }
            },
            None => None,
        }
    }
}

/// The escape expansion of one character inside a quoted string: backslash,
/// quote, newline, carriage return and tab are escaped, all else is literal.
pub open spec fn esc_char(c: char) -> Seq<char> {
    if c == '\\' {
        seq!['\\', '\\']
    } else if c == '"' {
        seq!['\\', '"']
    } else if c == '\n' {
        seq!['\\', 'n']
    } else if c == '\r' {
        seq!['\\', 'r']
    } else if c == '\t' {
        seq!['\\', 't']
    } else {
        seq![c]
    }
}

/// The escaped body of a quoted string.
pub open spec fn esc_str(s: Seq<char>) -> Seq<char>
    decreases s.len(),
{
    if s.len() == 0 {
        Seq::empty()
    } else {
        esc_char(s[0]) + esc_str(s.drop_first())
    }
}

/// The quoted rendering of a string value.
pub open spec fn quoted(s: Seq<char>) -> Seq<char> {
    seq!['"'] + esc_str(s) + seq!['"']
}

/// The string denoted by the body of a quoted value, unescaping as it goes;
/// `None` on a dangling backslash, an unknown escape, or a raw quote.
pub open spec fn unesc(s: Seq<char>) -> Option<Seq<char>>
    decreases s.len(),
{
    if s.len() == 0 {
        Some(Seq::empty())
    } else if s[0] == '\\' {
        if s.len() < 2 {
            None
        } else {
            let d = unesc_code(s[1]);
            match d {
                Some(c) => match unesc(s.skip(2)) {
                    Some(rest) => Some(seq![c] + rest),
                    None => None,
                },
                None => None,
            }
        }
    } else if s[0] == '"' {
        None
    } else {
        match unesc(s.drop_first()) {
            Some(rest) => Some(seq![s[0]] + rest),
            None => None,
        }
    }
}

/// The character denoted by an escape code, if the code is known.
pub open spec fn unesc_code(c: char) -> Option<char> {
    if c == '\\' {
        Some('\\')
    } else if c == '"' {
        Some('"')
    } else if c == 'n' {
        Some('\n')
    } else if c == 'r' {
        Some('\r')
    } else if c == 't' {
        Some('\t')
    } else {
        None
    }
}

/// The string denoted by a whole quoted token: it must begin and end with a
/// quote, and its body must unescape.
pub open spec fn parse_quoted(tok: Seq<char>) -> Option<Seq<char>> {
    if tok.len() >= 2 && tok[0] == '"' && tok.last() == '"' {
        unesc(tok.subrange(1, tok.len() - 1))
    } else {
        None
    }
}

/// Escaped bodies never contain a newline or a carriage return.
pub proof fn lemma_esc_str_safe(s: Seq<char>)
    ensures
        forall|j: int|
            0 <= j < esc_str(s).len() ==> esc_str(s)[j] != '\n' && esc_str(s)[j] != '\r',
    decreases s.len(),
{
    if s.len() > 0 {
        lemma_esc_str_safe(s.drop_first());
        assert forall|j: int|
            0 <= j < esc_str(s).len() implies esc_str(s)[j] != '\n' && esc_str(s)[j]
            != '\r' by {
            let e = esc_char(s[0]);
            if j >= e.len() {
                assert(esc_str(s)[j] == esc_str(s.drop_first())[j - e.len()]);
            } else {
                assert(esc_str(s)[j] == e[j]);
            }
        }
    }
}

/// Unescaping inverts escaping.
pub proof fn lemma_unesc_esc(s: Seq<char>)
    ensures
        unesc(esc_str(s)) == Some(s),
    decreases s.len(),
{
    if s.len() == 0 {
        assert(unesc(esc_str(s)) =~= Some(s));
    } else {
        let c = s[0];
        let e = esc_char(c);
        let t = esc_str(s);
        lemma_unesc_esc(s.drop_first());
        if c == '\\' || c == '"' || c == '\n' || c == '\r' || c == '\t' {
            assert(t[0] == '\\');
            assert(t.len() >= 2);
            assert(t[1] == e[1]);
            assert(unesc_code(t[1]) == Some(c));
            assert(t.skip(2) =~= esc_str(s.drop_first()));
            assert(unesc(t) == Some(seq![c] + s.drop_first()));
            assert(seq![c] + s.drop_first() =~= s);
        } else {
            assert(t[0] == c);
            assert(t.drop_first() =~= esc_str(s.drop_first()));
            assert(unesc(t) == Some(seq![c] + s.drop_first()));
            assert(seq![c] + s.drop_first() =~= s);
        }
    }
}

/// Parsing inverts quoting.
pub proof fn lemma_parse_quoted(s: Seq<char>)
    ensures
        parse_quoted(quoted(s)) == Some(s),
{
    let tok = quoted(s);
    assert(tok[0] == '"');
    assert(tok.last() == '"');
    assert(tok.subrange(1, tok.len() - 1) =~= esc_str(s));
    lemma_unesc_esc(s);
}

/// Appends the quoted rendering of `s` to `out`.
pub fn push_quoted(out: &mut Vec<char>, s: &Vec<char>)
    ensures
        final(out)@ == old(out)@ + quoted(s@),
{
    out.push('"');
    let mut i: usize = 0;
    while i < s.len()
        invariant
            i <= s@.len(),
            out@ == old(out)@ + seq!['"'] + esc_str(s@.take(i as int)),
        decreases s@.len() - i,
    {
        let c = s[i];
        if c == '\\' {
            out.push('\\');
            out.push('\\');
        } else if c == '"' {
            out.push('\\');
            out.push('"');
        } else if c == '\n' {
            out.push('\\');
            out.push('n');
        } else if c == '\r' {
            out.push('\\');
            out.push('r');
        } else if c == '\t' {
            out.push('\\');
            out.push('t');
        } else {
            out.push(c);
        }
        proof {
            lemma_esc_str_concat(s@.take(i as int), seq![c]);
            assert(seq![c].drop_first() =~= Seq::<char>::empty());
            assert(esc_str(Seq::<char>::empty()) =~= Seq::<char>::empty());
            assert(esc_str(seq![c]) =~= esc_char(c) + esc_str(seq![c].drop_first()));
            assert(esc_str(seq![c]) =~= esc_char(c));
            assert(s@.take(i as int) + seq![c] =~= s@.take(i as int + 1));
            assert(out@ =~= old(out)@ + seq!['"'] + esc_str(s@.take(i as int + 1)));
        }
        i = i + 1;
    }
    out.push('"');
    proof {
        assert(s@.take(s@.len() as int) =~= s@);
        assert(out@ =~= old(out)@ + quoted(s@));
    }
}

/// Escaping distributes over concatenation.
pub proof fn lemma_esc_str_concat(a: Seq<char>, b: Seq<char>)
    ensures
        esc_str(a + b) == esc_str(a) + esc_str(b),
    decreases a.len(),
{
    if a.len() == 0 {
        assert(a + b =~= b);
        assert(esc_str(a + b) =~= esc_str(a) + esc_str(b));
    } else {
        assert((a + b).drop_first() =~= a.drop_first() + b);
        assert((a + b)[0] == a[0]);
        lemma_esc_str_concat(a.drop_first(), b);
        assert(esc_str(a + b) =~= esc_str(a) + esc_str(b));
    }
}

/// Unescaping what remains from position `k`, with `acc` already produced.
pub open spec fn unesc_from(content: Seq<char>, k: int, acc: Seq<char>) -> Option<Seq<char>> {
    match unesc(content.skip(k)) {
        Some(rest) => Some(acc + rest),
        None => None,
    }
}

/// Reads the characters of `v` between `lo` and `hi` as a quoted string
/// token.
#[verifier::loop_isolation(false)]
pub fn parse_quoted_chars(v: &Vec<char>, lo: usize, hi: usize) -> (r: Option<Vec<char>>)
    requires
        lo <= hi <= v@.len(),
    ensures
        ({
            let tok = v@.subrange(lo as int, hi as int);
            match r {
                Some(out) => parse_quoted(tok) == Some(out@),
                None => parse_quoted(tok) is None,
            }
        }),
{
    let ghost tok = v@.subrange(lo as int, hi as int);
    if hi - lo < 2 {
        return None;
    }
    if v[lo] != '"' || v[hi - 1] != '"' {
        proof {
            assert(tok[0] == v@[lo as int]);
            assert(tok.last() == v@[hi as int - 1]);
        }
        return None;
    }
    let ghost content = v@.subrange(lo as int + 1, hi as int - 1);
    proof {
        assert(tok[0] == '"');
        assert(tok.last() == '"');
        assert(tok.subrange(1, tok.len() - 1) =~= content);
    }
    let mut out: Vec<char> = Vec::new();
    proof {
        assert(content.skip(0) =~= content);
        match unesc(content) {
            Some(rest) => {
                assert(Seq::<char>::empty() + rest =~= rest);
            },
            None => {},
        }
    }
    let mut i: usize = lo + 1;
    while i < hi - 1
        invariant
            lo + 1 <= i <= hi - 1,
            hi <= v@.len(),
            v@[lo as int] == '"',
            v@[hi as int - 1] == '"',
            content == v@.subrange(lo as int + 1, hi as int - 1),
            unesc(content) == unesc_from(content, i - lo - 1, out@),
        decreases hi - i,
    {
        let ghost k = i - lo - 1;
        let ghost remain = content.skip(k as int);
        proof {
            assert(remain[0] == v@[i as int]);
            assert(remain.len() == hi - 1 - i);
        }
        let c = v[i];
        if c == '\\' {
            if i + 1 >= hi - 1 {
                proof {
                    assert(remain.len() < 2);
                    assert(unesc(remain) is None);
                    assert(unesc(content) is None);
                    assert(parse_quoted(tok) is None);
                }
                return None;
            }
            let d = v[i + 1];
            proof {
                assert(remain[1] == v@[i as int + 1]);
            }
            let decoded = if d == '\\' {
                '\\'
            } else if d == '"' {
                '"'
            } else if d == 'n' {
                '\n'
            } else if d == 'r' {
                '\r'
            } else if d == 't' {
                '\t'
            } else {
                proof {
                    assert(unesc_code(remain[1]) is None);
                    assert(unesc(remain) is None);
                    assert(unesc(content) is None);
                    assert(parse_quoted(tok) is None);
                }
                return None;
            };
            let ghost prev_out = out@;
            out.push(decoded);
            i = i + 2;
            proof {
                assert(unesc_code(remain[1]) == Some(decoded));
                assert(remain.skip(2) =~= content.skip(i - lo - 1));
                assert(prev_out + seq![decoded] =~= out@);
                match unesc(content.skip(i - lo - 1)) {
                    Some(rest) => {
                        assert(unesc(remain) == Some(seq![decoded] + rest));
                        assert(prev_out + (seq![decoded] + rest) =~= out@ + rest);
                    },
                    None => {
                        assert(unesc(remain) is None);
                    },
                }
            }
        } else if c == '"' {
            proof {
                assert(unesc(remain) is None);
                assert(unesc(content) is None);
                assert(parse_quoted(tok) is None);
            }
            return None;
        } else {
            let ghost prev_out = out@;
            out.push(c);
            i = i + 1;
            proof {
                assert(remain.drop_first() =~= content.skip(i - lo - 1));
                match unesc(content.skip(i - lo - 1)) {
                    Some(rest) => {
                        assert(unesc(remain) == Some(seq![c] + rest));
                        assert(prev_out + (seq![c] + rest) =~= out@ + rest);
                    },
                    None => {
                        assert(unesc(remain) is None);
                    },
                }
            }
        }
    }
    proof {
        assert(content.skip(i - lo - 1) =~= Seq::<char>::empty());
        assert(unesc(Seq::<char>::empty()) == Some(Seq::<char>::empty()));
        assert(out@ + Seq::<char>::empty() =~= out@);
        assert(parse_quoted(tok) == Some(out@));
    }
    Some(out)
}

/// Whether `c` is horizontal whitespace (space or tab).
pub open spec fn is_ws_char(c: char) -> bool {
    c == ' ' || c == '\t'
}

/// `s` with trailing whitespace removed.
pub open spec fn trim_end(s: Seq<char>) -> Seq<char>
    decreases s.len(),
{
    if s.len() > 0 && is_ws_char(s.last()) {
        trim_end(s.drop_last())
    } else {
        s
    }
}

/// `s` with leading and trailing whitespace removed.
pub open spec fn trim_ws(s: Seq<char>) -> Seq<char>
    decreases s.len(),
{
    if s.len() > 0 && is_ws_char(s[0]) {
        trim_ws(s.drop_first())
    } else {
        trim_end(s)
    }
}

/// If a string neither starts nor ends with whitespace, trimming leaves it
/// unchanged.
pub proof fn lemma_trim_ws_id(s: Seq<char>)
    requires
        s.len() > 0 ==> !is_ws_char(s[0]),
        s.len() > 0 ==> !is_ws_char(s.last()),
    ensures
        trim_ws(s) == s,
{
}

/// Runtime check for [`is_ws_char`].
fn check_ws(c: char) -> (r: bool)
    ensures
        r == is_ws_char(c),
{
    c == ' ' || c == '\t'
}

/// The bounds of the whitespace-trimmed portion of `v` between `lo` and `hi`.
pub fn trim_bounds(v: &Vec<char>, lo: usize, hi: usize) -> (r: (usize, usize))
    requires
        lo <= hi <= v@.len(),
    ensures
        lo <= r.0 <= r.1 <= hi,
        v@.subrange(r.0 as int, r.1 as int) == trim_ws(v@.subrange(lo as int, hi as int)),
{
    let mut a: usize = lo;
    let mut b: usize = hi;
    while a < b && check_ws(v[a])
        invariant
            lo <= a <= b <= hi <= v@.len(),
            b == hi,
            trim_ws(v@.subrange(lo as int, hi as int)) == trim_ws(
                v@.subrange(a as int, b as int),
            ),
        decreases b - a,
    {
        proof {
            let cur = v@.subrange(a as int, b as int);
            assert(cur[0] == v@[a as int]);
            assert(cur.drop_first() =~= v@.subrange(a as int + 1, b as int));
        }
        a = a + 1;
    }
    proof {
        let cur = v@.subrange(a as int, b as int);
        if cur.len() > 0 {
            assert(cur[0] == v@[a as int]);
        }
        assert(trim_ws(cur) == trim_end(cur));
    }
    while a < b && check_ws(v[b - 1])
        invariant
            lo <= a <= b <= hi <= v@.len(),
            trim_ws(v@.subrange(lo as int, hi as int)) == trim_end(
                v@.subrange(a as int, b as int),
            ),
        decreases b - a,
    {
        proof {
            let cur = v@.subrange(a as int, b as int);
            assert(cur.last() == v@[b as int - 1]);
            assert(cur.drop_last() =~= v@.subrange(a as int, b as int - 1));
        }
        b = b - 1;
    }
    proof {
        let cur = v@.subrange(a as int, b as int);
        if cur.len() > 0 {
            assert(cur.last() == v@[b as int - 1]);
        }
        assert(trim_end(cur) == cur);
    }
    (a, b)
}

/// Whether `c` is an ASCII decimal digit.
pub open spec fn is_ascii_digit_char(c: char) -> bool {
    48 <= c as u32 && c as u32 <= 57
}

/// Whether `c` is an ASCII letter or digit.
pub open spec fn is_ascii_alnum(c: char) -> bool {
    is_ascii_digit_char(c) || (65 <= c as u32 && c as u32 <= 90) || (97 <= c as u32 && c as u32
        <= 122)
}

/// Runtime check for [`is_ascii_alnum`].
pub fn check_ascii_alnum(c: char) -> (r: bool)
    ensures
        r == is_ascii_alnum(c),
{
    let u = c as u32;
    (48 <= u && u <= 57) || (65 <= u && u <= 90) || (97 <= u && u <= 122)
}

} // verus!
