//! Byte strings: the vocabulary in which every other module states what it
//! reads and what it writes.
//!
//! All text in this crate is a sequence of bytes. A terminal sends bytes and
//! receives bytes, a line wraps after a number of bytes, and a name matches
//! when its bytes match.
use vstd::prelude::*;
use vstd::string::StringSliceAdditionalSpecFns;

verus! {

pub const LF: u8 = 10;

pub const CR: u8 = 13;

pub const SPACE: u8 = 32;

pub const SLASH: u8 = 47;

/// The view of each row of a table of byte strings.
pub open spec fn rows(v: Seq<Vec<u8>>) -> Seq<Seq<u8>> {
    Seq::new(v.len(), |i: int| v[i]@)
}

/// `n` copies of the byte `b`.
pub open spec fn repeat(b: u8, n: nat) -> Seq<u8> {
    Seq::new(n, |i: int| b)
}

/// `n` copies of the byte string `unit`, one after the other.
pub open spec fn repeat_seq(unit: Seq<u8>, n: nat) -> Seq<u8>
    decreases n,
{
    if n == 0 {
        Seq::empty()
    } else {
        repeat_seq(unit, (n - 1) as nat) + unit
    }
}

/// The decimal digits of `n`, most significant first, without leading zeros.
pub open spec fn decimal(n: nat) -> Seq<u8>
    decreases n,
{
    if n < 10 {
        seq![(48 + n) as u8]
    } else {
        decimal(n / 10).push((48 + n % 10) as u8)
    }
}

/// The position of the first `b` in `s`, or `s.len()` where there is none.
pub open spec fn first_index(s: Seq<u8>, b: u8) -> int
    decreases s.len(),
{
    if s.len() == 0 || s[0] == b {
        0
    } else {
        1 + first_index(s.skip(1), b)
    }
}

/// The position of the last `b` in `s`, or `-1` where there is none.
pub open spec fn last_index(s: Seq<u8>, b: u8) -> int
    decreases s.len(),
{
    if s.len() == 0 {
        -1
    } else if s.last() == b {
        s.len() - 1
    } else {
        last_index(s.drop_last(), b)
    }
}

/// The position of the first carriage return that a line feed follows, or
/// `s.len()` where there is none.
pub open spec fn first_crlf(s: Seq<u8>) -> int
    decreases s.len(),
{
    if s.len() < 2 {
        s.len() as int
    } else if s[0] == CR && s[1] == LF {
        0
    } else {
        1 + first_crlf(s.skip(1))
    }
}

/// The lines of `s`: what stands between its CR LF pairs. There is always at
/// least one line, and a text that ends in CR LF has an empty last line.
pub open spec fn split_crlf(s: Seq<u8>) -> Seq<Seq<u8>>
    decreases s.len(),
{
    let i = first_crlf(s);
    if 0 <= i && i + 2 <= s.len() {
        seq![s.take(i)] + split_crlf(s.skip(i + 2))
    } else {
        seq![s]
    }
}

/// `s` with a carriage return put before every line feed.
pub open spec fn expand_lf(s: Seq<u8>) -> Seq<u8>
    decreases s.len(),
{
    if s.len() == 0 {
        Seq::empty()
    } else if s.last() == LF {
        expand_lf(s.drop_last()).push(CR).push(LF)
    } else {
        expand_lf(s.drop_last()).push(s.last())
    }
}

/// Whether `a` comes strictly before `b` in dictionary order of bytes.
pub open spec fn lex_lt(a: Seq<u8>, b: Seq<u8>) -> bool
    decreases a.len(),
{
    if b.len() == 0 {
        false
    } else if a.len() == 0 {
        true
    } else if a[0] != b[0] {
        a[0] < b[0]
    } else {
        lex_lt(a.skip(1), b.skip(1))
    }
}

/// The first word of a command line: what stands before its first space.
pub open spec fn first_word(s: Seq<u8>) -> Seq<u8> {
    s.take(first_index(s, SPACE))
}

/// What follows the first space of a command line, if it has a space.
pub open spec fn after_first_word(s: Seq<u8>) -> Option<Seq<u8>> {
    let i = first_index(s, SPACE);
    if i < s.len() {
        Some(s.skip(i + 1))
    } else {
        None
    }
}

/// The second word of a command line, if its first word is followed by a
/// space. It is empty where two spaces follow each other.
pub open spec fn second_word(s: Seq<u8>) -> Option<Seq<u8>> {
    match after_first_word(s) {
        Some(rest) => Some(first_word(rest)),
        None => None,
    }
}

pub proof fn lemma_first_index_bounds(s: Seq<u8>, b: u8)
    ensures
        0 <= first_index(s, b) <= s.len(),
        first_index(s, b) < s.len() ==> s[first_index(s, b)] == b,
        forall|k: int| 0 <= k < first_index(s, b) ==> s[k] != b,
    decreases s.len(),
{
    if s.len() == 0 || s[0] == b {
    } else {
        lemma_first_index_bounds(s.skip(1), b);
        assert forall|k: int| 0 <= k < first_index(s, b) implies s[k] != b by {
            if k > 0 {
                assert(s.skip(1)[k - 1] == s[k]);
            }
        }
    }
}

/// The first index is the one position that holds `b` with no `b` before it.
pub proof fn lemma_first_index_is(s: Seq<u8>, b: u8, i: int)
    requires
        0 <= i <= s.len(),
        forall|k: int| 0 <= k < i ==> s[k] != b,
        i < s.len() ==> s[i] == b,
    ensures
        first_index(s, b) == i,
    decreases s.len(),
{
    if s.len() == 0 || s[0] == b {
    } else {
        assert forall|k: int| 0 <= k < i - 1 implies s.skip(1)[k] != b by {
            assert(s.skip(1)[k] == s[k + 1]);
        }
        lemma_first_index_is(s.skip(1), b, i - 1);
    }
}

pub proof fn lemma_last_index_bounds(s: Seq<u8>, b: u8)
    ensures
        -1 <= last_index(s, b) < s.len(),
        last_index(s, b) >= 0 ==> s[last_index(s, b)] == b,
        forall|k: int| last_index(s, b) < k < s.len() ==> s[k] != b,
    decreases s.len(),
{
    if s.len() == 0 || s.last() == b {
    } else {
        let t = s.drop_last();
        lemma_last_index_bounds(t, b);
        assert forall|k: int| last_index(s, b) < k < s.len() implies s[k] != b by {
            if k < t.len() {
                assert(t[k] == s[k]);
            }
        }
    }
}

/// The last index is the one position that holds `b` with no `b` after it.
pub proof fn lemma_last_index_is(s: Seq<u8>, b: u8, i: int)
    requires
        -1 <= i < s.len(),
        forall|k: int| i < k < s.len() ==> s[k] != b,
        i >= 0 ==> s[i] == b,
    ensures
        last_index(s, b) == i,
    decreases s.len(),
{
    if s.len() == 0 || s.last() == b {
    } else {
        lemma_last_index_is(s.drop_last(), b, i);
    }
}

/// The first CR LF pair is the one at `i` when none starts before `i`.
pub proof fn lemma_first_crlf_is(s: Seq<u8>, i: int)
    requires
        0 <= i,
        i + 2 <= s.len(),
        s[i] == CR,
        s[i + 1] == LF,
        forall|k: int| 0 <= k < i ==> !(#[trigger] s[k] == CR && s[k + 1] == LF),
    ensures
        first_crlf(s) == i,
    decreases s.len(),
{
    if s[0] == CR && s[1] == LF {
    } else {
        let t = s.skip(1);
        assert(t[i - 1] == s[i]);
        assert(t[i] == s[i + 1]);
        assert forall|k: int| 0 <= k < i - 1 implies !(#[trigger] t[k] == CR && t[k + 1] == LF) by {
            assert(t[k] == s[k + 1]);
            assert(t[k + 1] == s[k + 2]);
        }
        lemma_first_crlf_is(t, i - 1);
    }
}

/// A text without a CR LF pair has no first one.
pub proof fn lemma_first_crlf_none(s: Seq<u8>)
    requires
        forall|k: int| 0 <= k && k + 1 < s.len() ==> !(#[trigger] s[k] == CR && s[k + 1] == LF),
    ensures
        first_crlf(s) == s.len(),
    decreases s.len(),
{
    if s.len() < 2 {
    } else {
        let t = s.skip(1);
        assert forall|k: int| 0 <= k && k + 1 < t.len() implies !(#[trigger] t[k] == CR && t[k + 1]
            == LF) by {
            assert(t[k] == s[k + 1]);
            assert(t[k + 1] == s[k + 2]);
        }
        lemma_first_crlf_none(t);
    }
}

/// A text has at least one line.
pub proof fn lemma_split_crlf_nonempty(s: Seq<u8>)
    ensures
        split_crlf(s).len() >= 1,
    decreases s.len(),
{
    let i = first_crlf(s);
    if 0 <= i && i + 2 <= s.len() {
        lemma_split_crlf_nonempty(s.skip(i + 2));
    }
}

/// Appends `n` copies of `b` to `out`.
pub fn push_repeat(out: &mut Vec<u8>, b: u8, n: usize)
    ensures
        final(out)@ == old(out)@ + repeat(b, n as nat),
{
    let mut i: usize = 0;
    while i < n
        invariant
            i <= n,
            out@ == old(out)@ + repeat(b, i as nat),
        decreases n - i,
    {
        out.push(b);
        i += 1;
        assert(out@ =~= old(out)@ + repeat(b, i as nat));
    }
}

/// Appends `n` copies of the byte string `unit` to `out`.
pub fn push_repeat_seq(out: &mut Vec<u8>, unit: &[u8], n: usize)
    ensures
        final(out)@ == old(out)@ + repeat_seq(unit@, n as nat),
{
    let mut i: usize = 0;
    assert(out@ =~= old(out)@ + repeat_seq(unit@, 0));
    while i < n
        invariant
            i <= n,
            out@ == old(out)@ + repeat_seq(unit@, i as nat),
        decreases n - i,
    {
        push_bytes(out, unit);
        i += 1;
        assert(out@ =~= old(out)@ + repeat_seq(unit@, i as nat));
    }
}

/// Appends the bytes of `src` to `out`.
pub fn push_bytes(out: &mut Vec<u8>, src: &[u8])
    ensures
        final(out)@ == old(out)@ + src@,
{
    let n = src.len();
    let mut i: usize = 0;
    assert(out@ =~= old(out)@ + src@.take(0));
    while i < n
        invariant
            i <= n,
            n == src@.len(),
            out@ == old(out)@ + src@.take(i as int),
        decreases n - i,
    {
        out.push(src[i]);
        i += 1;
        assert(out@ =~= old(out)@ + src@.take(i as int));
    }
    assert(src@.take(n as int) =~= src@);
}

/// Appends the bytes of `src` from position `from` up to, not including,
/// position `to`.
pub fn push_range(out: &mut Vec<u8>, src: &[u8], from: usize, to: usize)
    requires
        from <= to <= src@.len(),
    ensures
        final(out)@ == old(out)@ + src@.subrange(from as int, to as int),
{
    let mut i: usize = from;
    assert(out@ =~= old(out)@ + src@.subrange(from as int, from as int));
    while i < to
        invariant
            from <= i <= to <= src@.len(),
            out@ == old(out)@ + src@.subrange(from as int, i as int),
        decreases to - i,
    {
        out.push(src[i]);
        i += 1;
        assert(out@ =~= old(out)@ + src@.subrange(from as int, i as int));
    }
}

/// Appends the bytes that encode the text `s`.
pub fn push_str(out: &mut Vec<u8>, s: &str)
    ensures
        final(out)@ == old(out)@ + s.spec_bytes(),
{
    push_bytes(out, s.as_bytes());
}

/// A copy of the bytes of `src` from `from` up to, not including, `to`.
pub fn copy_range(src: &[u8], from: usize, to: usize) -> (r: Vec<u8>)
    requires
        from <= to <= src@.len(),
    ensures
        r@ == src@.subrange(from as int, to as int),
{
    let mut r: Vec<u8> = Vec::new();
    push_range(&mut r, src, from, to);
    assert(r@ =~= src@.subrange(from as int, to as int));
    r
}

/// Appends the decimal digits of `n`.
pub fn push_decimal(out: &mut Vec<u8>, n: u64)
    ensures
        final(out)@ == old(out)@ + decimal(n as nat),
{
    let mut digits: Vec<u8> = Vec::new();
    let mut rest: u64 = n;
    // `digits` holds the low digits, least significant first.
    let ghost mut low: Seq<u8> = Seq::empty();
    while rest >= 10
        invariant
            digits@.len() == low.len(),
            forall|k: int| 0 <= k < low.len() ==> digits@[k] == low[low.len() - 1 - k],
            decimal(n as nat) == decimal(rest as nat) + low,
        decreases rest,
    {
        let d: u8 = (rest % 10) as u8 + 48;
        digits.push(d);
        proof {
            assert(decimal(rest as nat) == decimal((rest / 10) as nat).push(d));
            assert(decimal(n as nat) =~= decimal((rest / 10) as nat) + (seq![d] + low));
            low = seq![d] + low;
        }
        rest = rest / 10;
    }
    out.push(rest as u8 + 48);
    let mut i: usize = digits.len();
    assert(out@ =~= old(out)@ + decimal(rest as nat) + low.take(0));
    while i > 0
        invariant
            i <= digits@.len(),
            digits@.len() == low.len(),
            forall|k: int| 0 <= k < low.len() ==> digits@[k] == low[low.len() - 1 - k],
            out@ == old(out)@ + decimal(rest as nat) + low.take(low.len() - i),
        decreases i,
    {
        i -= 1;
        out.push(digits[i]);
        assert(out@ =~= old(out)@ + decimal(rest as nat) + low.take(low.len() - i));
    }
    assert(low.take(low.len() as int) =~= low);
    assert(out@ =~= old(out)@ + decimal(n as nat));
}

/// Whether two byte strings are the same.
pub fn bytes_eq(a: &[u8], b: &[u8]) -> (r: bool)
    ensures
        r == (a@ == b@),
{
    if a.len() != b.len() {
        return false;
    }
    let n = a.len();
    let mut i: usize = 0;
    while i < n
        invariant
            i <= n,
            n == a@.len(),
            n == b@.len(),
            forall|k: int| 0 <= k < i ==> a@[k] == b@[k],
        decreases n - i,
    {
        if a[i] != b[i] {
            return false;
        }
        i += 1;
    }
    assert(a@ =~= b@);
    true
}

/// Whether the byte string `a` is the encoding of the text `s`.
pub fn bytes_eq_str(a: &[u8], s: &str) -> (r: bool)
    ensures
        r == (a@ == s.spec_bytes()),
{
    bytes_eq(a, s.as_bytes())
}

/// Whether `a` comes strictly before `b` in dictionary order of bytes.
pub fn bytes_lt(a: &[u8], b: &[u8]) -> (r: bool)
    ensures
        r == lex_lt(a@, b@),
{
    let mut i: usize = 0;
    assert(a@.skip(0) =~= a@);
    assert(b@.skip(0) =~= b@);
    loop
        invariant
            i <= a@.len(),
            i <= b@.len(),
            lex_lt(a@, b@) == lex_lt(a@.skip(i as int), b@.skip(i as int)),
        decreases a@.len() - i,
    {
        if i >= b.len() {
            return false;
        }
        if i >= a.len() {
            return true;
        }
        if a[i] != b[i] {
            return a[i] < b[i];
        }
        assert(a@.skip(i as int).skip(1) =~= a@.skip(i + 1));
        assert(b@.skip(i as int).skip(1) =~= b@.skip(i + 1));
        i += 1;
    }
}

/// The position of the first `b` in `s`, or the length of `s`.
pub fn find_byte(s: &[u8], b: u8) -> (r: usize)
    ensures
        r == first_index(s@, b),
{
    let mut i: usize = 0;
    while i < s.len() && s[i] != b
        invariant
            i <= s@.len(),
            forall|k: int| 0 <= k < i ==> s@[k] != b,
        decreases s@.len() - i,
    {
        i += 1;
    }
    proof {
        lemma_first_index_is(s@, b, i as int);
    }
    i
}

/// The position of the last `b` in `s`, if there is one.
pub fn rfind_byte(s: &[u8], b: u8) -> (r: Option<usize>)
    ensures
        match r {
            Some(i) => last_index(s@, b) == i,
            None => last_index(s@, b) == -1,
        },
{
    let mut i: usize = s.len();
    while i > 0 && s[i - 1] != b
        invariant
            i <= s@.len(),
            forall|k: int| i <= k < s@.len() ==> s@[k] != b,
        decreases i,
    {
        i -= 1;
    }
    proof {
        lemma_last_index_is(s@, b, i as int - 1);
    }
    if i == 0 {
        None
    } else {
        Some(i - 1)
    }
}

/// The lines of `s`, split at each CR LF pair.
pub fn split_lines(s: &[u8]) -> (r: Vec<Vec<u8>>)
    ensures
        rows(r@) == split_crlf(s@),
        r@.len() >= 1,
{
    let n = s.len();
    let mut lines: Vec<Vec<u8>> = Vec::new();
    let mut start: usize = 0;
    let mut i: usize = 0;
    assert(s@.skip(0) =~= s@);
    assert(rows(lines@) + split_crlf(s@.skip(0)) =~= split_crlf(s@));
    while i < n
        invariant
            start <= i <= n,
            n == s@.len(),
            split_crlf(s@) == rows(lines@) + split_crlf(s@.skip(start as int)),
            forall|k: int|
                start <= k < i && k + 1 < n ==> !(#[trigger] s@[k] == CR && s@[k + 1] == LF),
        decreases n - i,
    {
        if s[i] == CR && i + 1 < n && s[i + 1] == LF {
            let line = copy_range(s, start, i);
            proof {
                let t = s@.skip(start as int);
                assert forall|k: int| 0 <= k < i - start implies !(#[trigger] t[k] == CR && t[k
                    + 1] == LF) by {
                    assert(t[k] == s@[start + k]);
                    assert(t[k + 1] == s@[start + k + 1]);
                }
                lemma_first_crlf_is(t, i - start);
                assert(t.take(i - start) =~= s@.subrange(start as int, i as int));
                assert(t.skip(i - start + 2) =~= s@.skip(i + 2));
                assert(split_crlf(t) == seq![line@] + split_crlf(s@.skip(i + 2)));
                assert(rows(lines@.push(line)) =~= rows(lines@) + seq![line@]);
            }
            lines.push(line);
            i += 2;
            start = i;
        } else {
            i += 1;
        }
    }
    let line = copy_range(s, start, n);
    proof {
        let t = s@.skip(start as int);
        assert forall|k: int| 0 <= k && k + 1 < t.len() implies !(#[trigger] t[k] == CR && t[k + 1]
            == LF) by {
            assert(t[k] == s@[start + k]);
            assert(t[k + 1] == s@[start + k + 1]);
        }
        lemma_first_crlf_none(t);
        assert(t =~= line@);
        assert(rows(lines@.push(line)) =~= rows(lines@) + seq![line@]);
    }
    lines.push(line);
    lines
}

/// `s` with a carriage return put before every line feed.
pub fn with_crlf(s: &[u8]) -> (r: Vec<u8>)
    ensures
        r@ == expand_lf(s@),
{
    let n = s.len();
    let mut out: Vec<u8> = Vec::new();
    let mut i: usize = 0;
    assert(s@.take(0) =~= Seq::<u8>::empty());
    while i < n
        invariant
            i <= n,
            n == s@.len(),
            out@ == expand_lf(s@.take(i as int)),
        decreases n - i,
    {
        proof {
            let t = s@.take(i + 1);
            assert(t.drop_last() =~= s@.take(i as int));
            assert(t.last() == s@[i as int]);
        }
        if s[i] == LF {
            out.push(CR);
            out.push(LF);
        } else {
            out.push(s[i]);
        }
        i += 1;
    }
    assert(s@.take(n as int) =~= s@);
    out
}

/// Whether the names stand in strictly rising dictionary order.
pub open spec fn sorted(names: Seq<Seq<u8>>) -> bool {
    forall|i: int, j: int|
        0 <= i < j < names.len() ==> lex_lt(#[trigger] names[i], #[trigger] names[j])
}

/// How many names at the front of `names` come strictly before `name`. In a
/// sorted list this is where `name` stands, or where it would be put.
pub open spec fn rank(names: Seq<Seq<u8>>, name: Seq<u8>) -> int
    decreases names.len(),
{
    if names.len() == 0 || !lex_lt(names[0], name) {
        0
    } else {
        1 + rank(names.skip(1), name)
    }
}

/// The rank is the first position whose name does not come before `name`.
pub proof fn lemma_rank_is(names: Seq<Seq<u8>>, name: Seq<u8>, i: int)
    requires
        0 <= i <= names.len(),
        forall|k: int| 0 <= k < i ==> lex_lt(#[trigger] names[k], name),
        i < names.len() ==> !lex_lt(names[i], name),
    ensures
        rank(names, name) == i,
    decreases names.len(),
{
    if names.len() == 0 || !lex_lt(names[0], name) {
    } else {
        let rest = names.skip(1);
        assert forall|k: int| 0 <= k < i - 1 implies lex_lt(#[trigger] rest[k], name) by {
            assert(rest[k] == names[k + 1]);
        }
        lemma_rank_is(rest, name, i - 1);
    }
}

pub proof fn lemma_rank_bounds(names: Seq<Seq<u8>>, name: Seq<u8>)
    ensures
        0 <= rank(names, name) <= names.len(),
        forall|k: int| 0 <= k < rank(names, name) ==> lex_lt(#[trigger] names[k], name),
        rank(names, name) < names.len() ==> !lex_lt(names[rank(names, name)], name),
    decreases names.len(),
{
    if names.len() == 0 || !lex_lt(names[0], name) {
    } else {
        let rest = names.skip(1);
        lemma_rank_bounds(rest, name);
        assert forall|k: int| 0 <= k < rank(names, name) implies lex_lt(
            #[trigger] names[k],
            name,
        ) by {
            if k > 0 {
                assert(rest[k - 1] == names[k]);
            }
        }
    }
}

/// No byte string comes before itself.
pub proof fn lemma_lex_irreflexive(a: Seq<u8>)
    ensures
        !lex_lt(a, a),
    decreases a.len(),
{
    if a.len() > 0 {
        lemma_lex_irreflexive(a.skip(1));
    }
}

/// Dictionary order is transitive.
pub proof fn lemma_lex_transitive(a: Seq<u8>, b: Seq<u8>, c: Seq<u8>)
    requires
        lex_lt(a, b),
        lex_lt(b, c),
    ensures
        lex_lt(a, c),
    decreases a.len(),
{
    if a.len() > 0 && a[0] == b[0] && b[0] == c[0] {
        lemma_lex_transitive(a.skip(1), b.skip(1), c.skip(1));
    }
}

/// Of two different byte strings one comes before the other.
pub proof fn lemma_lex_total(a: Seq<u8>, b: Seq<u8>)
    ensures
        lex_lt(a, b) || lex_lt(b, a) || a == b,
    decreases a.len(),
{
    if a.len() == 0 || b.len() == 0 {
        if a.len() == 0 && b.len() == 0 {
            assert(a =~= b);
        }
    } else if a[0] == b[0] {
        lemma_lex_total(a.skip(1), b.skip(1));
        if a.skip(1) == b.skip(1) {
            assert(a =~= seq![a[0]] + a.skip(1));
            assert(b =~= seq![b[0]] + b.skip(1));
        }
    }
}

/// The first word of a command line.
pub fn first_word_of(s: &[u8]) -> (r: Vec<u8>)
    ensures
        r@ == first_word(s@),
{
    let i = find_byte(s, SPACE);
    proof {
        lemma_first_index_bounds(s@, SPACE);
    }
    let r = copy_range(s, 0, i);
    assert(r@ =~= first_word(s@));
    r
}

/// What follows the first space of a command line, if it has a space.
pub fn after_first_word_of(s: &[u8]) -> (r: Option<Vec<u8>>)
    ensures
        match r {
            Some(rest) => after_first_word(s@) == Some(rest@),
            None => after_first_word(s@) is None,
        },
{
    let i = find_byte(s, SPACE);
    proof {
        lemma_first_index_bounds(s@, SPACE);
    }
    if i < s.len() {
        let r = copy_range(s, i + 1, s.len());
        assert(r@ =~= s@.skip(i + 1));
        Some(r)
    } else {
        None
    }
}

/// The second word of a command line, if its first word is followed by a
/// space.
pub fn second_word_of(s: &[u8]) -> (r: Option<Vec<u8>>)
    ensures
        match r {
            Some(word) => second_word(s@) == Some(word@),
            None => second_word(s@) is None,
        },
{
    match after_first_word_of(s) {
        Some(rest) => Some(first_word_of(rest.as_slice())),
        None => None,
    }
}

/// The names one per line: each followed by CR LF.
pub open spec fn listing(names: Seq<Seq<u8>>) -> Seq<u8>
    decreases names.len(),
{
    if names.len() == 0 {
        Seq::empty()
    } else {
        listing(names.drop_last()) + names.last() + seq![CR, LF]
    }
}

} // verus!
