//! Character-sequence utilities shared by the parser and the response
//! serializer: whitespace handling, ASCII case folding, CRLF splitting and
//! joining, and decimal rendering of integers.
use vstd::prelude::*;

verus! {

/// Whitespace characters recognized when the request line is split into
/// tokens and when header names and values are trimmed.
pub open spec fn is_space(c: char) -> bool {
    c == ' ' || c == '\t' || c == '\r' || c == '\n'
}

/// ASCII case folding of a single character; characters outside `A`..`Z`
/// are unchanged.
pub open spec fn lower_char(c: char) -> char {
    if 'A' <= c && c <= 'Z' {
        ((c as u32) + 32) as char
    } else {
        c
    }
}

/// ASCII case folding of a whole character sequence.
pub open spec fn lower(s: Seq<char>) -> Seq<char> {
    s.map_values(|c: char| lower_char(c))
}

/// The decimal digit character for a value below ten.
pub open spec fn digit_char(d: nat) -> char
    recommends
        d < 10,
{
    (('0' as u32) + d) as char
}

/// The decimal representation of `n`, most significant digit first.
pub open spec fn dec_digits(n: nat) -> Seq<char>
    decreases n,
{
    if n < 10 {
        seq![digit_char(n)]
    } else {
        dec_digits(n / 10).push(digit_char(n % 10))
    }
}

/// The two-character CRLF line break.
pub open spec fn crlf() -> Seq<char> {
    seq!['\r', '\n']
}

/// Index of the first CRLF pair in `s`, if any.
pub open spec fn find_crlf(s: Seq<char>) -> Option<int>
    decreases s.len(),
{
    if s.len() < 2 {
        None
    } else if s[0] == '\r' && s[1] == '\n' {
        Some(0)
    } else {
        match find_crlf(s.drop_first()) {
            Some(i) => Some(i + 1),
            None => None,
        }
    }
}

pub proof fn lemma_find_crlf_some(s: Seq<char>)
    ensures
        find_crlf(s) matches Some(i) ==> 0 <= i && i + 2 <= s.len() && s[i] == '\r' && s[i + 1]
            == '\n',
    decreases s.len(),
{
    if s.len() >= 2 && !(s[0] == '\r' && s[1] == '\n') {
        lemma_find_crlf_some(s.drop_first());
    }
}

/// The lines of `s`, split on every CRLF pair; splitting a sequence without
/// CRLF yields that sequence as its single line.
pub open spec fn split_crlf(s: Seq<char>) -> Seq<Seq<char>>
    decreases s.len() via split_crlf_decreases
{
    match find_crlf(s) {
        None => seq![s],
        Some(i) => seq![s.subrange(0, i)] + split_crlf(s.subrange(i + 2, s.len() as int)),
    }
}

#[via_fn]
proof fn split_crlf_decreases(s: Seq<char>) {
    lemma_find_crlf_some(s);
}

/// The given lines rejoined with CRLF between each pair of neighbours.
pub open spec fn join_crlf(lines: Seq<Seq<char>>) -> Seq<char>
    decreases lines.len(),
{
    if lines.len() == 0 {
        Seq::empty()
    } else if lines.len() == 1 {
        lines[0]
    } else {
        lines[0] + crlf() + join_crlf(lines.drop_first())
    }
}

/// `s` without its leading whitespace.
pub open spec fn skip_ws(s: Seq<char>) -> Seq<char>
    decreases s.len(),
{
    if s.len() > 0 && is_space(s[0]) {
        skip_ws(s.drop_first())
    } else {
        s
    }
}

pub proof fn lemma_skip_ws(s: Seq<char>)
    ensures
        skip_ws(s).len() <= s.len(),
        skip_ws(s).len() > 0 ==> !is_space(skip_ws(s)[0]),
    decreases s.len(),
{
    if s.len() > 0 && is_space(s[0]) {
        lemma_skip_ws(s.drop_first());
    }
}

/// The longest whitespace-free prefix of `s`.
pub open spec fn take_token(s: Seq<char>) -> Seq<char>
    decreases s.len(),
{
    if s.len() > 0 && !is_space(s[0]) {
        seq![s[0]] + take_token(s.drop_first())
    } else {
        Seq::empty()
    }
}

pub proof fn lemma_take_token(s: Seq<char>)
    ensures
        take_token(s).len() <= s.len(),
        s.len() > 0 && !is_space(s[0]) ==> take_token(s).len() >= 1,
    decreases s.len(),
{
    if s.len() > 0 && !is_space(s[0]) {
        lemma_take_token(s.drop_first());
    }
}

/// The whitespace-separated tokens of `s`, in order, without empty tokens.
pub open spec fn split_ws(s: Seq<char>) -> Seq<Seq<char>>
    decreases s.len() via split_ws_decreases
{
    let t = skip_ws(s);
    if t.len() == 0 {
        Seq::empty()
    } else {
        let tok = take_token(t);
        seq![tok] + split_ws(t.subrange(tok.len() as int, t.len() as int))
    }
}

#[via_fn]
proof fn split_ws_decreases(s: Seq<char>) {
    lemma_skip_ws(s);
    lemma_take_token(skip_ws(s));
}

/// `s` without its trailing whitespace.
pub open spec fn trim_end(s: Seq<char>) -> Seq<char>
    decreases s.len(),
{
    if s.len() > 0 && is_space(s[s.len() - 1]) {
        trim_end(s.drop_last())
    } else {
        s
    }
}

/// `s` without leading and trailing whitespace.
pub open spec fn trim(s: Seq<char>) -> Seq<char> {
    trim_end(skip_ws(s))
}

/// Index of the first occurrence of `c` in `s`, if any.
pub open spec fn find_char(s: Seq<char>, c: char) -> Option<int>
    decreases s.len(),
{
    if s.len() == 0 {
        None
    } else if s[0] == c {
        Some(0)
    } else {
        match find_char(s.drop_first(), c) {
            Some(i) => Some(i + 1),
            None => None,
        }
    }
}

pub proof fn lemma_find_char_some(s: Seq<char>, c: char)
    ensures
        find_char(s, c) matches Some(i) ==> 0 <= i && i < s.len() && s[i] == c,
    decreases s.len(),
{
    if s.len() > 0 && s[0] != c {
        lemma_find_char_some(s.drop_first(), c);
    }
}

proof fn lemma_subrange_drop_first(s: Seq<char>, i: int, j: int)
    requires
        0 <= i < j <= s.len(),
    ensures
        s.subrange(i, j).drop_first() =~= s.subrange(i + 1, j),
{
}

proof fn lemma_subrange_drop_last(s: Seq<char>, i: int, j: int)
    requires
        0 <= i < j <= s.len(),
    ensures
        s.subrange(i, j).drop_last() =~= s.subrange(i, j - 1),
{
}

/// No character of `s` is whitespace.
pub open spec fn no_ws(s: Seq<char>) -> bool {
    forall|i: int| 0 <= i < s.len() ==> !is_space(s[i])
}

/// The character `c` does not occur in `s`.
pub open spec fn no_char(s: Seq<char>, c: char) -> bool {
    forall|i: int| 0 <= i < s.len() ==> s[i] != c
}

/// No CRLF pair occurs inside `s`.
pub open spec fn no_crlf_pair(s: Seq<char>) -> bool {
    forall|i: int| 0 <= i < s.len() - 1 ==> !((#[trigger] s[i]) == '\r' && s[i + 1] == '\n')
}

pub proof fn lemma_find_crlf_prepend(line: Seq<char>, rest: Seq<char>)
    requires
        no_crlf_pair(line),
    ensures
        find_crlf(line + crlf() + rest) == Some(line.len() as int),
    decreases line.len(),
{
    let s = line + crlf() + rest;
    if line.len() == 0 {
        assert(s[0] == '\r' && s[1] == '\n');
    } else {
        assert(s[0] == line[0]);
        if line.len() == 1 {
            assert(s[1] == '\r');
        } else {
            assert(s[1] == line[1]);
        }
        assert(!(s[0] == '\r' && s[1] == '\n'));
        lemma_find_crlf_prepend(line.drop_first(), rest);
        assert(s.drop_first() =~= line.drop_first() + crlf() + rest);
    }
}

/// Splitting takes one CRLF-free line off the front at a time.
pub proof fn lemma_split_crlf_prepend(line: Seq<char>, rest: Seq<char>)
    requires
        no_crlf_pair(line),
    ensures
        split_crlf(line + crlf() + rest) == seq![line] + split_crlf(rest),
{
    let s = line + crlf() + rest;
    lemma_find_crlf_prepend(line, rest);
    assert(s.subrange(0, line.len() as int) =~= line);
    assert(s.subrange(line.len() as int + 2, s.len() as int) =~= rest);
}

pub proof fn lemma_split_crlf_len(s: Seq<char>)
    ensures
        split_crlf(s).len() >= 1,
{
}

/// Splitting on CRLF loses nothing: rejoining the lines restores the
/// original sequence.
pub proof fn lemma_join_split_crlf(s: Seq<char>)
    ensures
        join_crlf(split_crlf(s)) == s,
    decreases s.len(),
{
    lemma_find_crlf_some(s);
    match find_crlf(s) {
        None => {
            assert(join_crlf(seq![s]) == s);
        },
        Some(i) => {
            let rest = s.subrange(i + 2, s.len() as int);
            lemma_join_split_crlf(rest);
            lemma_split_crlf_len(rest);
            let lines = split_crlf(s);
            assert(lines == seq![s.subrange(0, i)] + split_crlf(rest));
            assert(lines.len() >= 2);
            assert(lines.drop_first() =~= split_crlf(rest));
            assert(lines[0] == s.subrange(0, i));
            assert(s.subrange(0, i) + crlf() + rest =~= s);
        },
    }
}

pub proof fn lemma_find_char_first(pre: Seq<char>, c: char, suf: Seq<char>)
    requires
        no_char(pre, c),
    ensures
        find_char(pre + seq![c] + suf, c) == Some(pre.len() as int),
    decreases pre.len(),
{
    let s = pre + seq![c] + suf;
    if pre.len() == 0 {
        assert(s[0] == c);
    } else {
        assert(s[0] == pre[0]);
        lemma_find_char_first(pre.drop_first(), c, suf);
        assert(s.drop_first() =~= pre.drop_first() + seq![c] + suf);
    }
}

pub proof fn lemma_take_token_prefix(t: Seq<char>, rest: Seq<char>)
    requires
        no_ws(t),
        rest.len() == 0 || is_space(rest[0]),
    ensures
        take_token(t + rest) == t,
    decreases t.len(),
{
    let s = t + rest;
    if t.len() == 0 {
        assert(s =~= rest);
        assert(take_token(rest) =~= t);
    } else {
        assert(s[0] == t[0]);
        lemma_take_token_prefix(t.drop_first(), rest);
        assert(s.drop_first() =~= t.drop_first() + rest);
        assert(seq![t[0]] + t.drop_first() =~= t);
    }
}

/// Tokenizing looks at a sequence only through its whitespace-skipped
/// form.
pub proof fn lemma_split_ws_agree(a: Seq<char>, b: Seq<char>)
    requires
        skip_ws(a) == skip_ws(b),
    ensures
        split_ws(a) == split_ws(b),
{
    let t = skip_ws(a);
    if t.len() == 0 {
    } else {
    }
}

/// A leading space does not change the tokens.
pub proof fn lemma_split_ws_space(rest: Seq<char>)
    ensures
        split_ws(seq![' '] + rest) == split_ws(rest),
{
    let s = seq![' '] + rest;
    assert(s.drop_first() =~= rest);
    assert(skip_ws(s) == skip_ws(rest));
    lemma_split_ws_agree(s, rest);
}

/// Tokenizing takes one whitespace-free token off the front at a time.
pub proof fn lemma_split_ws_token(t: Seq<char>, rest: Seq<char>)
    requires
        t.len() > 0,
        no_ws(t),
        rest.len() == 0 || is_space(rest[0]),
    ensures
        split_ws(t + rest) == seq![t] + split_ws(rest),
{
    let s = t + rest;
    assert(s[0] == t[0]);
    assert(skip_ws(s) == s);
    lemma_take_token_prefix(t, rest);
    assert(take_token(s) == t);
    assert(s.subrange(t.len() as int, s.len() as int) =~= rest);
}

/// Relies on `String::push` of std: appends the given character to the end
/// of the string.
#[verifier::external_body]
pub(crate) fn push_char(s: &mut String, c: char)
    ensures
        final(s)@ == old(s)@.push(c),
{
    s.push(c);
}

/// Compares two string slices character by character.
pub fn str_eq(a: &str, b: &str) -> (r: bool)
    ensures
        r == (a@ == b@),
{
    let alen = a.unicode_len();
    let blen = b.unicode_len();
    if alen != blen {
        assert(a@.len() != b@.len());
        return false;
    }
    let mut i: usize = 0;
    while i < alen
        invariant
            i <= alen,
            alen == a@.len(),
            alen == b@.len(),
            forall|j: int| 0 <= j < i ==> a@[j] == b@[j],
        decreases alen - i,
    {
        if a.get_char(i) != b.get_char(i) {
            return false;
        }
        i += 1;
    }
    assert(a@ =~= b@);
    true
}

/// Renders `n` in decimal, most significant digit first.
pub fn u64_to_dec(n: u64) -> (r: String)
    ensures
        r@ == dec_digits(n as nat),
    decreases n,
{
    let d: u64 = n % 10;
    let c = digit_char_exec(d);
    if n < 10 {
        let mut s = String::new();
        push_char(&mut s, c);
        assert(s@ =~= dec_digits(n as nat));
        s
    } else {
        let mut s = u64_to_dec(n / 10);
        push_char(&mut s, c);
        assert(s@ =~= dec_digits(n as nat));
        s
    }
}

/// Decides `is_space` on one character.
pub fn is_space_exec(c: char) -> (r: bool)
    ensures
        r == is_space(c),
{
    c == ' ' || c == '\t' || c == '\r' || c == '\n'
}

/// Finds the first CRLF pair in `s`.
pub fn find_crlf_exec(s: &str) -> (r: Option<usize>)
    ensures
        match r {
            Some(i) => find_crlf(s@) == Some(i as int),
            None => find_crlf(s@) is None,
        },
    decreases s@.len(),
{
    let len = s.unicode_len();
    if len < 2 {
        return None;
    }
    if s.get_char(0) == '\r' && s.get_char(1) == '\n' {
        return Some(0);
    }
    let rest = s.substring_char(1, len);
    proof {
        assert(rest@ =~= s@.drop_first());
    }
    match find_crlf_exec(rest) {
        Some(i) => {
            proof {
                lemma_find_crlf_some(rest@);
            }
            Some(i + 1)
        },
        None => None,
    }
}

/// Finds the first occurrence of `c` in `s`.
pub fn find_char_exec(s: &str, c: char) -> (r: Option<usize>)
    ensures
        match r {
            Some(i) => find_char(s@, c) == Some(i as int),
            None => find_char(s@, c) is None,
        },
    decreases s@.len(),
{
    let len = s.unicode_len();
    if len == 0 {
        return None;
    }
    if s.get_char(0) == c {
        return Some(0);
    }
    let rest = s.substring_char(1, len);
    proof {
        assert(rest@ =~= s@.drop_first());
    }
    match find_char_exec(rest, c) {
        Some(i) => {
            proof {
                lemma_find_char_some(rest@, c);
            }
            Some(i + 1)
        },
        None => None,
    }
}

/// Moves a copy of every string of `src` onto the end of `dst`, in order.
pub fn extend_strings(dst: &mut Vec<String>, src: &Vec<String>)
    ensures
        final(dst).deep_view() == old(dst).deep_view() + src.deep_view(),
{
    let mut j: usize = 0;
    while j < src.len()
        invariant
            j <= src.len(),
            dst@ =~= old(dst)@ + src@.subrange(0, j as int),
        decreases src.len() - j,
    {
        dst.push(src[j].clone());
        j += 1;
    }
    proof {
        assert(src@.subrange(0, src.len() as int) =~= src@);
        assert(dst@ =~= old(dst)@ + src@);
        assert(dst.deep_view() =~~= old(dst).deep_view() + src.deep_view());
    }
}

/// Splits `s` into its CRLF-separated lines.
pub fn split_crlf_exec(s: &str) -> (r: Vec<String>)
    ensures
        r.deep_view() == split_crlf(s@),
    decreases s@.len(),
{
    match find_crlf_exec(s) {
        None => {
            let mut out: Vec<String> = Vec::new();
            out.push(String::from_str(s));
            proof {
                assert(out.deep_view() =~~= split_crlf(s@));
            }
            out
        },
        Some(i) => {
            proof {
                lemma_find_crlf_some(s@);
            }
            let len = s.unicode_len();
            let head = s.substring_char(0, i);
            let tail = s.substring_char(i + 2, len);
            let rest = split_crlf_exec(tail);
            let mut out: Vec<String> = Vec::new();
            out.push(String::from_str(head));
            extend_strings(&mut out, &rest);
            proof {
                assert(out.deep_view() =~~= split_crlf(s@));
            }
            out
        },
    }
}

/// Splits `s` into its whitespace-separated tokens.
pub fn split_ws_exec(s: &str) -> (r: Vec<String>)
    ensures
        r.deep_view() == split_ws(s@),
    decreases s@.len(),
{
    let len = s.unicode_len();
    proof {
        assert(s@.subrange(0, len as int) =~= s@);
    }
    let mut start: usize = 0;
    while start < len && is_space_exec(s.get_char(start))
        invariant
            start <= len,
            len == s@.len(),
            skip_ws(s@) == skip_ws(s@.subrange(start as int, len as int)),
        decreases len - start,
    {
        proof {
            lemma_subrange_drop_first(s@, start as int, len as int);
        }
        start += 1;
    }
    proof {
        assert(s@.subrange(start as int, len as int).len() == len - start);
    }
    if start == len {
        proof {
            assert(skip_ws(s@).len() == 0);
        }
        let out: Vec<String> = Vec::new();
        proof {
            assert(out.deep_view() =~~= split_ws(s@));
        }
        return out;
    }
    let mut end: usize = start;
    while end < len && !is_space_exec(s.get_char(end))
        invariant
            start <= end <= len,
            len == s@.len(),
            skip_ws(s@) == s@.subrange(start as int, len as int),
            take_token(s@.subrange(start as int, len as int)) =~= s@.subrange(
                start as int,
                end as int,
            ) + take_token(s@.subrange(end as int, len as int)),
        decreases len - end,
    {
        proof {
            lemma_subrange_drop_first(s@, end as int, len as int);
        }
        end += 1;
    }
    proof {
        assert(take_token(s@.subrange(end as int, len as int)) =~= Seq::<char>::empty());
        assert(take_token(skip_ws(s@)) =~= s@.subrange(start as int, end as int));
    }
    let tok = s.substring_char(start, end);
    let remainder = s.substring_char(end, len);
    proof {
        assert(skip_ws(s@).subrange(
            take_token(skip_ws(s@)).len() as int,
            skip_ws(s@).len() as int,
        ) =~= remainder@);
    }
    let rest = split_ws_exec(remainder);
    let mut out: Vec<String> = Vec::new();
    out.push(String::from_str(tok));
    extend_strings(&mut out, &rest);
    proof {
        assert(out.deep_view() =~~= split_ws(s@));
    }
    out
}

/// Removes leading and trailing whitespace from `s`.
pub fn trim_exec<'a>(s: &'a str) -> (r: &'a str)
    ensures
        r@ == trim(s@),
{
    let len = s.unicode_len();
    proof {
        assert(s@.subrange(0, len as int) =~= s@);
    }
    let mut start: usize = 0;
    while start < len && is_space_exec(s.get_char(start))
        invariant
            start <= len,
            len == s@.len(),
            skip_ws(s@) == skip_ws(s@.subrange(start as int, len as int)),
        decreases len - start,
    {
        proof {
            lemma_subrange_drop_first(s@, start as int, len as int);
        }
        start += 1;
    }
    proof {
        assert(skip_ws(s@) == s@.subrange(start as int, len as int));
    }
    let mut end: usize = len;
    while end > start && is_space_exec(s.get_char(end - 1))
        invariant
            start <= end <= len,
            len == s@.len(),
            trim_end(s@.subrange(start as int, len as int)) == trim_end(
                s@.subrange(start as int, end as int),
            ),
        decreases end,
    {
        proof {
            lemma_subrange_drop_last(s@, start as int, end as int);
        }
        end -= 1;
    }
    proof {
        assert(trim(s@) == s@.subrange(start as int, end as int));
    }
    s.substring_char(start, end)
}

/// ASCII case folding of a string.
pub fn lower_exec(s: &str) -> (r: String)
    ensures
        r@ == lower(s@),
{
    let len = s.unicode_len();
    let mut out = String::new();
    let mut i: usize = 0;
    while i < len
        invariant
            i <= len,
            len == s@.len(),
            out@.len() == i,
            forall|j: int| 0 <= j < i ==> out@[j] == lower_char(s@[j]),
        decreases len - i,
    {
        let c = s.get_char(i);
        let u = c as u32;
        let lc = if ('A' as u32) <= u && u <= ('Z' as u32) {
            lower_letter_exec(c)
        } else {
            c
        };
        push_char(&mut out, lc);
        i += 1;
    }
    proof {
        assert(out@ =~= lower(s@));
    }
    out
}

/// ASCII case folding of one uppercase letter.
fn lower_letter_exec(c: char) -> (r: char)
    requires
        'A' as u32 <= c as u32 <= 'Z' as u32,
    ensures
        r == lower_char(c),
{
    match c {
        'A' => 'a',
        'B' => 'b',
        'C' => 'c',
        'D' => 'd',
        'E' => 'e',
        'F' => 'f',
        'G' => 'g',
        'H' => 'h',
        'I' => 'i',
        'J' => 'j',
        'K' => 'k',
        'L' => 'l',
        'M' => 'm',
        'N' => 'n',
        'O' => 'o',
        'P' => 'p',
        'Q' => 'q',
        'R' => 'r',
        'S' => 's',
        'T' => 't',
        'U' => 'u',
        'V' => 'v',
        'W' => 'w',
        'X' => 'x',
        'Y' => 'y',
        _ => 'z',
    }
}

/// Rejoins `lines[from..]` with CRLF between each pair of neighbours.
pub fn join_crlf_from(lines: &Vec<String>, from: usize) -> (r: String)
    requires
        from <= lines.len(),
    ensures
        r@ == join_crlf(lines.deep_view().subrange(from as int, lines.len() as int)),
    decreases lines.len() - from,
{
    let ghost tail = lines.deep_view().subrange(from as int, lines.len() as int);
    if from >= lines.len() {
        let out = String::new();
        proof {
            assert(tail.len() == 0);
        }
        out
    } else if from + 1 == lines.len() {
        let out = lines[from].clone();
        proof {
            assert(tail.len() == 1);
            assert(tail[0] == lines@[from as int]@);
        }
        out
    } else {
        let mut out = lines[from].clone();
        out.append("\r\n");
        let rest = join_crlf_from(lines, from + 1);
        out.append(rest.as_str());
        proof {
            reveal_strlit("\r\n");
            assert("\r\n"@ =~= crlf());
            assert(tail.drop_first() =~= lines.deep_view().subrange(
                from + 1,
                lines.len() as int,
            ));
            assert(out@ =~= join_crlf(tail));
        }
        out
    }
}

/// The decimal digit character for a value below ten.
fn digit_char_exec(d: u64) -> (c: char)
    requires
        d < 10,
    ensures
        c == digit_char(d as nat),
{
    match d {
        0 => '0',
        1 => '1',
        2 => '2',
        3 => '3',
        4 => '4',
        5 => '5',
        6 => '6',
        7 => '7',
        8 => '8',
        _ => '9',
    }
}

} // verus!
