//! Byte-level text utilities: the library models all text as UTF-8 byte
//! sequences (`str::spec_bytes`), so searching, trimming, tokenising and
//! decimal conversion are stated and proved over `Seq<u8>`.

use vstd::prelude::*;

verus! {

use vstd::string::StringSliceAdditionalSpecFns;

/// ASCII whitespace as the host's configuration grammar uses it.
pub open spec fn is_ws(b: u8) -> bool {
    b == 32 || b == 9 || b == 10 || b == 13 || b == 12
}

/// ASCII decimal digit.
pub open spec fn is_digit(b: u8) -> bool {
    48 <= b <= 57
}

/// ASCII word byte (`\w`): letter, digit or underscore.
pub open spec fn is_word_byte(b: u8) -> bool {
    (97 <= b <= 122) || (65 <= b <= 90) || is_digit(b) || b == 95
}

pub fn byte_is_ws(b: u8) -> (r: bool)
    ensures
        r == is_ws(b),
{
    b == 32 || b == 9 || b == 10 || b == 13 || b == 12
}

pub fn byte_is_digit(b: u8) -> (r: bool)
    ensures
        r == is_digit(b),
{
    48 <= b && b <= 57
}

pub fn byte_is_word(b: u8) -> (r: bool)
    ensures
        r == is_word_byte(b),
{
    (97 <= b && b <= 122) || (65 <= b && b <= 90) || (48 <= b && b <= 57) || b == 95
}

/// Index of the first occurrence of `b` in `s`, or `s.len()` if none.
pub open spec fn find_first_byte(s: Seq<u8>, b: u8) -> int
    decreases s.len(),
{
    if s.len() == 0 {
        0
    } else if s[0] == b {
        0
    } else {
        1 + find_first_byte(s.drop_first(), b)
    }
}

pub proof fn lemma_find_first_byte(s: Seq<u8>, b: u8)
    ensures
        0 <= find_first_byte(s, b) <= s.len(),
        forall|j: int| 0 <= j < find_first_byte(s, b) ==> s[j] != b,
        find_first_byte(s, b) < s.len() ==> s[find_first_byte(s, b)] == b,
    decreases s.len(),
{
    if s.len() > 0 && s[0] != b {
        lemma_find_first_byte(s.drop_first(), b);
        assert forall|j: int| 0 <= j < find_first_byte(s, b) implies s[j] != b by {
            if j > 0 {
                assert(s.drop_first()[j - 1] == s[j]);
            }
        }
        if find_first_byte(s, b) < s.len() {
            assert(s.drop_first()[find_first_byte(s, b) - 1] == s[find_first_byte(s, b)]);
        }
    }
}

/// The converse: a position that is the first hit pins `find_first_byte`.
pub proof fn lemma_find_first_byte_is(s: Seq<u8>, b: u8, i: int)
    requires
        0 <= i <= s.len(),
        forall|j: int| 0 <= j < i ==> s[j] != b,
        i < s.len() ==> s[i] == b,
    ensures
        find_first_byte(s, b) == i,
    decreases s.len(),
{
    if s.len() == 0 {
    } else if s[0] == b {
    } else {
        assert forall|j: int| 0 <= j < i - 1 implies s.drop_first()[j] != b by {
            assert(s.drop_first()[j] == s[j + 1]);
        }
        if i - 1 < s.drop_first().len() {
            assert(s.drop_first()[i - 1] == s[i]);
        }
        lemma_find_first_byte_is(s.drop_first(), b, i - 1);
    }
}

/// Index of the first ASCII-whitespace byte of `s`, or `s.len()` if none.
pub open spec fn find_first_ws(s: Seq<u8>) -> int
    decreases s.len(),
{
    if s.len() == 0 {
        0
    } else if is_ws(s[0]) {
        0
    } else {
        1 + find_first_ws(s.drop_first())
    }
}

pub proof fn lemma_find_first_ws(s: Seq<u8>)
    ensures
        0 <= find_first_ws(s) <= s.len(),
        forall|j: int| 0 <= j < find_first_ws(s) ==> !is_ws(s[j]),
        find_first_ws(s) < s.len() ==> is_ws(s[find_first_ws(s)]),
    decreases s.len(),
{
    if s.len() > 0 && !is_ws(s[0]) {
        lemma_find_first_ws(s.drop_first());
        assert forall|j: int| 0 <= j < find_first_ws(s) implies !is_ws(s[j]) by {
            if j > 0 {
                assert(s.drop_first()[j - 1] == s[j]);
            }
        }
        if find_first_ws(s) < s.len() {
            assert(s.drop_first()[find_first_ws(s) - 1] == s[find_first_ws(s)]);
        }
    }
}

pub proof fn lemma_find_first_ws_is(s: Seq<u8>, i: int)
    requires
        0 <= i <= s.len(),
        forall|j: int| 0 <= j < i ==> !is_ws(s[j]),
        i < s.len() ==> is_ws(s[i]),
    ensures
        find_first_ws(s) == i,
    decreases s.len(),
{
    if s.len() == 0 {
    } else if is_ws(s[0]) {
    } else {
        assert forall|j: int| 0 <= j < i - 1 implies !is_ws(s.drop_first()[j]) by {
            assert(s.drop_first()[j] == s[j + 1]);
        }
        if i - 1 < s.drop_first().len() {
            assert(s.drop_first()[i - 1] == s[i]);
        }
        lemma_find_first_ws_is(s.drop_first(), i - 1);
    }
}

/// First index at or after `from` holding byte `b`.
pub fn find_byte(s: &[u8], from: usize, b: u8) -> (r: Option<usize>)
    requires
        from <= s@.len(),
    ensures
        match r {
            Some(i) => from <= i < s@.len() && s@[i as int] == b && forall|j: int|
                from <= j < i ==> s@[j] != b,
            None => forall|j: int| from <= j < s@.len() ==> s@[j] != b,
        },
{
    let mut i: usize = from;
    while i < s.len()
        invariant
            from <= i <= s@.len(),
            forall|j: int| from <= j < i ==> s@[j] != b,
        decreases s@.len() - i,
    {
        if s[i] == b {
            return Some(i);
        }
        i = i + 1;
    }
    None
}

/// Whether the byte sequences are equal.
pub fn bytes_eq(a: &[u8], b: &[u8]) -> (r: bool)
    ensures
        r == (a@ == b@),
{
    if a.len() != b.len() {
        assert(a@ != b@);
        return false;
    }
    let mut i: usize = 0;
    while i < a.len()
        invariant
            i <= a@.len(),
            a@.len() == b@.len(),
            forall|j: int| 0 <= j < i ==> a@[j] == b@[j],
        decreases a@.len() - i,
    {
        if a[i] != b[i] {
            return false;
        }
        i = i + 1;
    }
    proof {
        assert(a@ =~= b@);
    }
    true
}

/// Whether `a` begins with `p`.
pub fn starts_with_bytes(a: &[u8], p: &[u8]) -> (r: bool)
    ensures
        r == (a@.len() >= p@.len() && a@.take(p@.len() as int) == p@),
{
    if a.len() < p.len() {
        return false;
    }
    let prefix = vstd::slice::slice_subrange(a, 0, p.len());
    let e = bytes_eq(prefix, p);
    proof {
        assert(a@.subrange(0, p@.len() as int) =~= a@.take(p@.len() as int));
    }
    e
}

/// First index at or after `from` where `pat` occurs as a sub-sequence.
pub open spec fn matches_at(s: Seq<u8>, i: int, pat: Seq<u8>) -> bool {
    0 <= i && i + pat.len() <= s.len() && s.subrange(i, i + pat.len()) == pat
}

pub fn find_sub(s: &[u8], from: usize, pat: &[u8]) -> (r: Option<usize>)
    requires
        from <= s@.len(),
        pat@.len() >= 1,
    ensures
        match r {
            Some(i) => from <= i && matches_at(s@, i as int, pat@) && forall|j: int|
                from <= j < i ==> !matches_at(s@, j, pat@),
            None => forall|j: int| from <= j ==> !matches_at(s@, j, pat@),
        },
{
    if pat.len() > s.len() {
        return None;
    }
    let last_start: usize = s.len() - pat.len();
    if from > last_start {
        return None;
    }
    let end: usize = last_start + 1;
    let n: usize = s.len();
    let mut i: usize = from;
    while i < end
        invariant
            from <= i <= end,
            1 <= pat@.len() <= s@.len(),
            n == s@.len(),
            last_start == s@.len() - pat@.len(),
            end == last_start + 1,
            forall|j: int| from <= j < i ==> !matches_at(s@, j, pat@),
        decreases end - i,
    {
        let here = vstd::slice::slice_subrange(s, i, i + pat.len());
        if bytes_eq(here, pat) {
            return Some(i);
        }
        i = i + 1;
    }
    None
}

/// `s` with leading and trailing ASCII whitespace removed.
pub open spec fn spec_trim_end(s: Seq<u8>) -> Seq<u8>
    decreases s.len(),
{
    if s.len() > 0 && is_ws(s.last()) {
        spec_trim_end(s.drop_last())
    } else {
        s
    }
}

pub open spec fn spec_trim(s: Seq<u8>) -> Seq<u8>
    decreases s.len(),
{
    if s.len() > 0 && is_ws(s[0]) {
        spec_trim(s.drop_first())
    } else {
        spec_trim_end(s)
    }
}

proof fn lemma_trim_end_take(s: Seq<u8>, e: int)
    requires
        0 <= e <= s.len(),
        forall|j: int| e <= j < s.len() ==> is_ws(s[j]),
        e > 0 ==> !is_ws(s[e - 1]),
    ensures
        spec_trim_end(s) == s.take(e),
    decreases s.len(),
{
    if s.len() == 0 {
        assert(spec_trim_end(s) =~= s.take(e));
    } else if is_ws(s.last()) {
        assert(e < s.len());
        lemma_trim_end_take(s.drop_last(), e);
        assert(s.drop_last().take(e) =~= s.take(e));
    } else {
        assert(e == s.len());
        assert(spec_trim_end(s) =~= s.take(e));
    }
}

proof fn lemma_trim_subrange(s: Seq<u8>, b: int, e: int)
    requires
        0 <= b <= e <= s.len(),
        forall|j: int| 0 <= j < b ==> is_ws(s[j]),
        forall|j: int| e <= j < s.len() ==> is_ws(s[j]),
        b < s.len() ==> !is_ws(s[b]),
        e > 0 && b < e ==> !is_ws(s[e - 1]),
        b == s.len() ==> e == b,
    ensures
        spec_trim(s) == s.subrange(b, e),
    decreases s.len(),
{
    if s.len() > 0 && is_ws(s[0]) {
        assert(b >= 1);
        let t = s.drop_first();
        assert forall|j: int| 0 <= j < b - 1 implies is_ws(t[j]) by {
            assert(t[j] == s[j + 1]);
        }
        assert forall|j: int| e - 1 <= j < t.len() implies is_ws(t[j]) by {
            assert(t[j] == s[j + 1]);
        }
        lemma_trim_subrange(t, b - 1, e - 1);
        assert(t.subrange(b - 1, e - 1) =~= s.subrange(b, e));
    } else {
        assert(b == 0);
        lemma_trim_end_take(s, e);
        assert(s.take(e) =~= s.subrange(0, e));
    }
}

pub fn trim(s: &[u8]) -> (r: &[u8])
    ensures
        r@ == spec_trim(s@),
{
    let mut b: usize = 0;
    while b < s.len() && byte_is_ws(s[b])
        invariant
            b <= s@.len(),
            forall|j: int| 0 <= j < b ==> is_ws(s@[j]),
        decreases s@.len() - b,
    {
        b = b + 1;
    }
    let mut e: usize = s.len();
    if b == s.len() {
        let r = vstd::slice::slice_subrange(s, 0, 0);
        proof {
            lemma_trim_subrange(s@, b as int, b as int);
            assert(s@.subrange(b as int, b as int) =~= s@.subrange(0, 0));
        }
        return r;
    }
    while e > b && byte_is_ws(s[e - 1])
        invariant
            b <= e <= s@.len(),
            forall|j: int| e <= j < s@.len() ==> is_ws(s@[j]),
        decreases e,
    {
        e = e - 1;
    }
    proof {
        if e == b {
            assert(is_ws(s@[b as int]));
            assert(false);
        }
        lemma_trim_subrange(s@, b as int, e as int);
    }
    vstd::slice::slice_subrange(s, b, e)
}

/// Classes of bytes the descriptor grammar distinguishes.
#[derive(Clone, Copy)]
pub enum ByteClass {
    /// Letter, digit or underscore (`\w`).
    Word,
    /// ASCII whitespace.
    Space,
    /// Lower-case letter, digit, underscore or square bracket: the
    /// characters a type token may hold.
    LowerToken,
}

pub open spec fn in_class(c: ByteClass, b: u8) -> bool {
    match c {
        ByteClass::Word => is_word_byte(b),
        ByteClass::Space => is_ws(b),
        ByteClass::LowerToken => (97 <= b <= 122) || is_digit(b) || b == 95 || b == 91
            || b == 93,
    }
}

pub fn byte_in_class(c: ByteClass, b: u8) -> (r: bool)
    ensures
        r == in_class(c, b),
{
    match c {
        ByteClass::Word => byte_is_word(b),
        ByteClass::Space => byte_is_ws(b),
        ByteClass::LowerToken => (97 <= b && b <= 122) || (48 <= b && b <= 57) || b == 95
            || b == 91 || b == 93,
    }
}

/// Length of the longest prefix of `s` whose bytes are all in class `c`.
pub open spec fn run_len(c: ByteClass, s: Seq<u8>) -> int
    decreases s.len(),
{
    if s.len() == 0 {
        0
    } else if !in_class(c, s[0]) {
        0
    } else {
        1 + run_len(c, s.drop_first())
    }
}

pub proof fn lemma_run_len(c: ByteClass, s: Seq<u8>)
    ensures
        0 <= run_len(c, s) <= s.len(),
        forall|j: int| 0 <= j < run_len(c, s) ==> in_class(c, s[j]),
        run_len(c, s) < s.len() ==> !in_class(c, s[run_len(c, s)]),
    decreases s.len(),
{
    if s.len() > 0 && in_class(c, s[0]) {
        lemma_run_len(c, s.drop_first());
        assert forall|j: int| 0 <= j < run_len(c, s) implies in_class(c, s[j]) by {
            if j > 0 {
                assert(s.drop_first()[j - 1] == s[j]);
            }
        }
        if run_len(c, s) < s.len() {
            assert(s.drop_first()[run_len(c, s) - 1] == s[run_len(c, s)]);
        }
    }
}

pub proof fn lemma_run_len_is(c: ByteClass, s: Seq<u8>, i: int)
    requires
        0 <= i <= s.len(),
        forall|j: int| 0 <= j < i ==> in_class(c, s[j]),
        i < s.len() ==> !in_class(c, s[i]),
    ensures
        run_len(c, s) == i,
    decreases s.len(),
{
    if s.len() == 0 {
    } else if !in_class(c, s[0]) {
    } else {
        assert forall|j: int| 0 <= j < i - 1 implies in_class(c, s.drop_first()[j]) by {
            assert(s.drop_first()[j] == s[j + 1]);
        }
        if i - 1 < s.drop_first().len() {
            assert(s.drop_first()[i - 1] == s[i]);
        }
        lemma_run_len_is(c, s.drop_first(), i - 1);
    }
}

/// Length of the longest prefix of `s@.skip(from)` lying in class `c`.
pub fn take_run(c: ByteClass, s: &[u8], from: usize) -> (r: usize)
    requires
        from <= s@.len(),
    ensures
        r == run_len(c, s@.skip(from as int)),
        from + r <= s@.len(),
{
    let mut k: usize = from;
    while k < s.len() && byte_in_class(c, s[k])
        invariant
            from <= k <= s@.len(),
            forall|j: int| from <= j < k ==> in_class(c, s@[j]),
        decreases s@.len() - k,
    {
        k = k + 1;
    }
    proof {
        let rest = s@.skip(from as int);
        assert forall|j: int| 0 <= j < k - from implies in_class(c, rest[j]) by {
            assert(rest[j] == s@[from + j]);
        }
        if k < s@.len() {
            assert(rest[k - from] == s@[k as int]);
        }
        lemma_run_len_is(c, rest, k - from);
    }
    k - from
}

/// `s` with leading ASCII whitespace removed.
pub open spec fn spec_trim_start(s: Seq<u8>) -> Seq<u8> {
    s.skip(run_len(ByteClass::Space, s))
}

pub fn trim_start(s: &[u8]) -> (r: &[u8])
    ensures
        r@ == spec_trim_start(s@),
{
    let k = take_run(ByteClass::Space, s, 0);
    proof {
        assert(s@.skip(0) =~= s@);
        assert(s@.subrange(k as int, s@.len() as int) =~= s@.skip(k as int));
    }
    vstd::slice::slice_subrange(s, k, s.len())
}

/// A line chunk with a trailing carriage return removed, as `str::lines`
/// treats `\r\n` endings.
pub open spec fn strip_cr(s: Seq<u8>) -> Seq<u8> {
    if s.len() > 0 && s.last() == 13 {
        s.drop_last()
    } else {
        s
    }
}

/// The lines of `s`: split at `\n`, a `\r` before the `\n` dropped, no empty
/// final line after a trailing `\n`.
pub open spec fn spec_lines(s: Seq<u8>) -> Seq<Seq<u8>>
    decreases s.len(),
    via spec_lines_decreases
{
    if s.len() == 0 {
        seq![]
    } else {
        let k = find_first_byte(s, 10);
        if k < s.len() {
            seq![strip_cr(s.take(k))] + spec_lines(s.skip(k + 1))
        } else {
            seq![s]
        }
    }
}

#[via_fn]
proof fn spec_lines_decreases(s: Seq<u8>) {
    lemma_find_first_byte(s, 10);
}

/// Split into lines, as `str::lines` does.
pub fn lines(s: &[u8]) -> (r: Vec<Vec<u8>>)
    ensures
        r@.len() == spec_lines(s@).len(),
        forall|i: int| 0 <= i < r@.len() ==> r@[i]@ == spec_lines(s@)[i],
{
    let ghost whole: Seq<Seq<u8>> = spec_lines(s@);
    let mut r: Vec<Vec<u8>> = Vec::new();
    let mut pos: usize = 0;
    proof {
        assert(s@.skip(0) =~= s@);
        assert(r@.map_values(|v: Vec<u8>| v@) =~= Seq::<Seq<u8>>::empty());
        assert(Seq::<Seq<u8>>::empty() + spec_lines(s@) =~= spec_lines(s@));
    }
    while pos < s.len()
        invariant
            pos <= s@.len(),
            whole == spec_lines(s@),
            whole == r@.map_values(|v: Vec<u8>| v@) + spec_lines(s@.skip(pos as int)),
            r@.len() <= whole.len(),
            forall|i: int| 0 <= i < r@.len() ==> r@[i]@ == whole[i],
        decreases s@.len() - pos,
    {
        let ghost rest = s@.skip(pos as int);
        let line_end = find_byte(s, pos, 10);
        let k: usize = match line_end {
            Some(k) => k,
            None => s.len(),
        };
        proof {
            assert forall|j: int| 0 <= j < k - pos implies rest[j] != 10 by {
                assert(rest[j] == s@[pos + j]);
            }
            if k < s@.len() {
                assert(rest[k - pos] == s@[k as int]);
            }
            lemma_find_first_byte_is(rest, 10, k - pos);
        }
        let chunk_end: usize = if k < s.len() && k > pos && s[k - 1] == 13 {
            k - 1
        } else {
            k
        };
        let chunk = vstd::slice::slice_subrange(s, pos, chunk_end);
        let line: Vec<u8> = vstd::slice::slice_to_vec(chunk);
        proof {
            if k < s@.len() {
                assert(rest.take(k - pos) =~= s@.subrange(pos as int, k as int));
                assert(strip_cr(rest.take(k - pos)) =~= s@.subrange(
                    pos as int,
                    chunk_end as int,
                ));
                assert(rest.skip(k - pos + 1) =~= s@.skip(k + 1));
            } else {
                assert(rest =~= s@.subrange(pos as int, chunk_end as int));
                assert(spec_lines(rest) == seq![rest]);
            }
        }
        r.push(line);
        proof {
            assert(r@.map_values(|v: Vec<u8>| v@) =~= r@.drop_last().map_values(
                |v: Vec<u8>| v@,
            ).push(line@));
            if k < s@.len() {
            } else {
                assert(spec_lines(s@.skip(s@.len() as int)) =~= Seq::<Seq<u8>>::empty());
                assert(r@.map_values(|v: Vec<u8>| v@) + spec_lines(s@.skip(s@.len() as int))
                    =~= r@.map_values(|v: Vec<u8>| v@));
            }
        }
        if k < s.len() {
            pos = k + 1;
        } else {
            pos = s.len();
        }
    }
    proof {
        assert(spec_lines(s@.skip(pos as int)) =~= Seq::<Seq<u8>>::empty());
        assert(whole =~= r@.map_values(|v: Vec<u8>| v@));
    }
    r
}

/// The whitespace-separated tokens of `s`.
pub open spec fn spec_tokens(s: Seq<u8>) -> Seq<Seq<u8>>
    decreases s.len(),
    via spec_tokens_decreases
{
    if s.len() == 0 {
        seq![]
    } else if is_ws(s[0]) {
        spec_tokens(s.drop_first())
    } else {
        let k = find_first_ws(s);
        seq![s.take(k)] + spec_tokens(s.skip(k))
    }
}

#[via_fn]
proof fn spec_tokens_decreases(s: Seq<u8>) {
    lemma_find_first_ws(s);
}

/// Split into ASCII-whitespace-separated tokens.
pub fn tokens(s: &[u8]) -> (r: Vec<Vec<u8>>)
    ensures
        r@.len() == spec_tokens(s@).len(),
        forall|i: int| 0 <= i < r@.len() ==> r@[i]@ == spec_tokens(s@)[i],
{
    let ghost whole: Seq<Seq<u8>> = spec_tokens(s@);
    let mut r: Vec<Vec<u8>> = Vec::new();
    let mut pos: usize = 0;
    proof {
        assert(s@.skip(0) =~= s@);
        assert(r@.map_values(|v: Vec<u8>| v@) =~= Seq::<Seq<u8>>::empty());
        assert(Seq::<Seq<u8>>::empty() + spec_tokens(s@) =~= spec_tokens(s@));
    }
    while pos < s.len()
        invariant
            pos <= s@.len(),
            whole == spec_tokens(s@),
            whole == r@.map_values(|v: Vec<u8>| v@) + spec_tokens(s@.skip(pos as int)),
            forall|i: int| 0 <= i < r@.len() ==> r@[i]@ == whole[i],
            r@.len() <= whole.len(),
        decreases s@.len() - pos,
    {
        if byte_is_ws(s[pos]) {
            proof {
                assert(s@.skip(pos as int).drop_first() =~= s@.skip(pos as int + 1));
            }
            pos = pos + 1;
        } else {
            let ghost rest = s@.skip(pos as int);
            let mut k: usize = pos;
            while k < s.len() && !byte_is_ws(s[k])
                invariant
                    pos <= k <= s@.len(),
                    forall|j: int| pos <= j < k ==> !is_ws(s@[j]),
                decreases s@.len() - k,
            {
                k = k + 1;
            }
            proof {
                assert forall|j: int| 0 <= j < k - pos implies !is_ws(rest[j]) by {
                    assert(rest[j] == s@[pos + j]);
                }
                if k < s@.len() {
                    assert(rest[k - pos] == s@[k as int]);
                }
                lemma_find_first_ws_is(rest, k - pos);
                assert(rest.take(k - pos) =~= s@.subrange(pos as int, k as int));
                assert(rest.skip(k - pos) =~= s@.skip(k as int));
            }
            let tok = vstd::slice::slice_to_vec(
                vstd::slice::slice_subrange(s, pos, k),
            );
            r.push(tok);
            proof {
                assert(r@.map_values(|v: Vec<u8>| v@) =~= r@.drop_last().map_values(
                    |v: Vec<u8>| v@,
                ).push(tok@));
            }
            pos = k;
        }
    }
    proof {
        assert(spec_tokens(s@.skip(pos as int)) =~= Seq::<Seq<u8>>::empty());
        assert(whole =~= r@.map_values(|v: Vec<u8>| v@));
    }
    r
}

/// Split at the first occurrence of `b`, as `str::split_once` does.
pub open spec fn spec_split_once(s: Seq<u8>, b: u8) -> Option<(Seq<u8>, Seq<u8>)> {
    let k = find_first_byte(s, b);
    if k < s.len() {
        Some((s.take(k), s.skip(k + 1)))
    } else {
        None
    }
}

pub fn split_once<'a>(s: &'a [u8], b: u8) -> (r: Option<(&'a [u8], &'a [u8])>)
    ensures
        match r {
            Some((l, rr)) => spec_split_once(s@, b) == Some((l@, rr@)),
            None => spec_split_once(s@, b) is None,
        },
{
    let n: usize = s.len();
    match find_byte(s, 0, b) {
        Some(k) => {
            proof {
                lemma_find_first_byte_is(s@, b, k as int);
            }
            let l = vstd::slice::slice_subrange(s, 0, k);
            let rr = vstd::slice::slice_subrange(s, k + 1, n);
            proof {
                assert(l@ =~= s@.take(k as int));
                assert(rr@ =~= s@.skip(k as int + 1));
            }
            Some((l, rr))
        },
        None => {
            proof {
                lemma_find_first_byte_is(s@, b, s@.len() as int);
            }
            None
        },
    }
}

/// Numeric value of a digit string, most significant first.
pub open spec fn digits_val(s: Seq<u8>) -> nat
    decreases s.len(),
{
    if s.len() == 0 {
        0
    } else {
        digits_val(s.drop_last()) * 10 + (s.last() - 48) as nat
    }
}

pub open spec fn all_digits(s: Seq<u8>) -> bool {
    forall|j: int| 0 <= j < s.len() ==> is_digit(#[trigger] s[j])
}

/// The value of a decimal string as `str::parse::<u64>` accepts it: at least
/// one digit, nothing else, value within range.
pub open spec fn spec_parse_u64(s: Seq<u8>) -> Option<u64> {
    if s.len() > 0 && all_digits(s) && digits_val(s) <= u64::MAX {
        Some(digits_val(s) as u64)
    } else {
        None
    }
}

proof fn lemma_digits_val_take_step(s: Seq<u8>, i: int)
    requires
        0 <= i < s.len(),
    ensures
        digits_val(s.take(i + 1)) == digits_val(s.take(i)) * 10 + ((s[i] - 48) as nat),
{
    assert(s.take(i + 1).drop_last() =~= s.take(i));
    assert(s.take(i + 1).last() == s[i]);
}

proof fn lemma_digits_val_grows(s: Seq<u8>, i: int, j: int)
    requires
        0 <= i <= j <= s.len(),
        all_digits(s),
    ensures
        digits_val(s.take(j)) >= digits_val(s.take(i)),
    decreases j - i,
{
    if i < j {
        lemma_digits_val_grows(s, i, j - 1);
        lemma_digits_val_take_step(s, j - 1);
    }
}

/// Parse an unsigned decimal number, strictly: any non-digit byte, an empty
/// string or overflow yields `None`.
pub fn parse_u64(s: &[u8]) -> (r: Option<u64>)
    ensures
        r == spec_parse_u64(s@),
{
    if s.len() == 0 {
        return None;
    }
    let mut acc: u64 = 0;
    let mut i: usize = 0;
    while i < s.len()
        invariant
            i <= s@.len(),
            s@.len() > 0,
            all_digits(s@.take(i as int)),
            acc == digits_val(s@.take(i as int)),
        decreases s@.len() - i,
    {
        let b = s[i];
        if !byte_is_digit(b) {
            assert(!all_digits(s@));
            return None;
        }
        let d: u64 = (b - 48) as u64;
        if acc > (u64::MAX - d) / 10 {
            proof {
                lemma_digits_val_take_step(s@, i as int);
                assert(digits_val(s@.take(i as int + 1)) > u64::MAX) by {
                    assert(acc * 10 + d > u64::MAX) by (nonlinear_arith)
                        requires
                            acc > (u64::MAX - d) / 10,
                            d <= 9,
                            acc <= u64::MAX,
                            u64::MAX == 0xffff_ffff_ffff_ffff,
                    ;
                };
                if all_digits(s@) {
                    lemma_digits_val_grows(s@, i as int + 1, s@.len() as int);
                    assert(s@.take(s@.len() as int) =~= s@);
                }
            }
            return None;
        }
        proof {
            assert(acc * 10 + d <= u64::MAX) by (nonlinear_arith)
                requires
                    acc <= (u64::MAX - d) / 10,
                    d <= 9,
                    u64::MAX == 0xffff_ffff_ffff_ffff,
            ;
            lemma_digits_val_take_step(s@, i as int);
            assert(s@.take(i as int).push(s@[i as int]) =~= s@.take(i as int + 1));
        }
        acc = acc * 10 + d;
        i = i + 1;
    }
    proof {
        assert(s@.take(i as int) =~= s@);
    }
    Some(acc)
}

/// The value of a signed decimal string as `str::parse::<i32>` accepts it:
/// an optional sign, then digits, within range.
pub open spec fn spec_parse_i32(s: Seq<u8>) -> Option<i32> {
    if s.len() >= 1 && s[0] == 45 {
        match spec_parse_u64(s.skip(1)) {
            Some(n) => if n <= 0x8000_0000u64 {
                Some((-(n as int)) as i32)
            } else {
                None
            },
            None => None,
        }
    } else if s.len() >= 1 && s[0] == 43 {
        match spec_parse_u64(s.skip(1)) {
            Some(n) => if n <= 0x7fff_ffffu64 {
                Some(n as i32)
            } else {
                None
            },
            None => None,
        }
    } else {
        match spec_parse_u64(s) {
            Some(n) => if n <= 0x7fff_ffffu64 {
                Some(n as i32)
            } else {
                None
            },
            None => None,
        }
    }
}

/// Parse a signed decimal number.
pub fn parse_i32(s: &[u8]) -> (r: Option<i32>)
    ensures
        r == spec_parse_i32(s@),
{
    if s.len() >= 1 && s[0] == 45 {
        let rest = vstd::slice::slice_subrange(s, 1, s.len());
        proof {
            assert(rest@ =~= s@.skip(1));
        }
        match parse_u64(rest) {
            Some(n) => {
                if n <= 0x8000_0000u64 {
                    if n == 0x8000_0000u64 {
                        Some(i32::MIN)
                    } else {
                        Some(-(n as i32))
                    }
                } else {
                    None
                }
            },
            None => None,
        }
    } else if s.len() >= 1 && s[0] == 43 {
        let rest = vstd::slice::slice_subrange(s, 1, s.len());
        proof {
            assert(rest@ =~= s@.skip(1));
        }
        match parse_u64(rest) {
            Some(n) => if n <= 0x7fff_ffffu64 {
                Some(n as i32)
            } else {
                None
            },
            None => None,
        }
    } else {
        match parse_u64(s) {
            Some(n) => if n <= 0x7fff_ffffu64 {
                Some(n as i32)
            } else {
                None
            },
            None => None,
        }
    }
}

/// The canonical decimal digits of `v`, without leading zeros.
pub open spec fn spec_u64_digits(v: nat) -> Seq<u8>
    decreases v,
{
    if v < 10 {
        seq![(48 + v) as u8]
    } else {
        spec_u64_digits(v / 10).push((48 + v % 10) as u8)
    }
}

pub proof fn lemma_u64_digits_are_digits(v: nat)
    ensures
        spec_u64_digits(v).len() >= 1,
        all_digits(spec_u64_digits(v)),
    decreases v,
{
    if v >= 10 {
        lemma_u64_digits_are_digits(v / 10);
        let d = spec_u64_digits(v);
        assert forall|j: int| 0 <= j < d.len() implies is_digit(d[j]) by {
            if j < d.len() - 1 {
                assert(d[j] == spec_u64_digits(v / 10)[j]);
            }
        }
    }
}

/// Printing then parsing a number gives the number back.
pub proof fn lemma_u64_digits_val(v: nat)
    ensures
        digits_val(spec_u64_digits(v)) == v,
    decreases v,
{
    if v < 10 {
        assert(digits_val(Seq::<u8>::empty()) == 0);
        assert(spec_u64_digits(v).drop_last() =~= Seq::<u8>::empty());
        assert(spec_u64_digits(v).last() == (48 + v) as u8);
        assert(((48 + v) as u8 - 48) as nat == v);
    } else {
        lemma_u64_digits_val(v / 10);
        assert(spec_u64_digits(v).drop_last() =~= spec_u64_digits(v / 10));
        assert(spec_u64_digits(v).last() == (48 + v % 10) as u8);
        assert(((48 + v % 10) as u8 - 48) as nat == v % 10);
        vstd::arithmetic::div_mod::lemma_fundamental_div_mod(v as int, 10);
    }
}

pub proof fn lemma_u64_digits_roundtrip(v: u64)
    ensures
        spec_parse_u64(spec_u64_digits(v as nat)) == Some(v),
{
    lemma_u64_digits_are_digits(v as nat);
    lemma_u64_digits_val(v as nat);
}

/// Render `v` in decimal.
pub fn u64_digits(v: u64) -> (r: Vec<u8>)
    ensures
        r@ == spec_u64_digits(v as nat),
    decreases v,
{
    if v < 10 {
        let mut r: Vec<u8> = Vec::new();
        r.push(48 + (v as u8));
        proof {
            assert(r@ =~= spec_u64_digits(v as nat));
        }
        r
    } else {
        let mut r = u64_digits(v / 10);
        r.push(48 + ((v % 10) as u8));
        r
    }
}

/// Append all of `s` to `out`.
pub fn append_bytes(out: &mut Vec<u8>, s: &[u8])
    ensures
        final(out)@ == old(out)@ + s@,
{
    let mut i: usize = 0;
    while i < s.len()
        invariant
            i <= s@.len(),
            out@ == old(out)@ + s@.take(i as int),
        decreases s@.len() - i,
    {
        out.push(s[i]);
        proof {
            assert(old(out)@ + s@.take(i as int) + seq![s@[i as int]] =~= old(out)@
                + s@.take(i as int + 1));
        }
        i = i + 1;
    }
    proof {
        assert(s@.take(s@.len() as int) =~= s@);
    }
}

/// Index of the first occurrence of `pat` as a sub-sequence of `s`, or a
/// value past the last possible start when there is none.
pub open spec fn find_sub_spec(s: Seq<u8>, pat: Seq<u8>) -> int
    decreases s.len(),
{
    if matches_at(s, 0, pat) {
        0
    } else if s.len() == 0 {
        0
    } else {
        1 + find_sub_spec(s.drop_first(), pat)
    }
}

proof fn lemma_matches_at_shift(s: Seq<u8>, j: int, pat: Seq<u8>)
    requires
        s.len() > 0,
        0 <= j,
    ensures
        matches_at(s.drop_first(), j, pat) == matches_at(s, j + 1, pat),
{
    if j + 1 + pat.len() <= s.len() {
        assert(s.drop_first().subrange(j, j + pat.len() as int) =~= s.subrange(
            j + 1,
            j + 1 + pat.len() as int,
        ));
    }
}

pub proof fn lemma_find_sub_spec_is(s: Seq<u8>, pat: Seq<u8>, i: int)
    requires
        0 <= i <= s.len(),
        forall|j: int| 0 <= j < i ==> !matches_at(s, j, pat),
        i == s.len() ==> forall|j: int| 0 <= j ==> !matches_at(s, j, pat),
        i < s.len() ==> matches_at(s, i, pat),
    ensures
        find_sub_spec(s, pat) == i,
    decreases s.len(),
{
    if matches_at(s, 0, pat) {
        assert(i == 0);
    } else if s.len() == 0 {
    } else {
        let t = s.drop_first();
        assert forall|j: int| 0 <= j < i - 1 implies !matches_at(t, j, pat) by {
            lemma_matches_at_shift(s, j, pat);
        }
        if i - 1 < t.len() {
            lemma_matches_at_shift(s, i - 1, pat);
        } else {
            assert forall|j: int| 0 <= j implies !matches_at(t, j, pat) by {
                lemma_matches_at_shift(s, j, pat);
            }
        }
        lemma_find_sub_spec_is(t, pat, i - 1);
    }
}

/// UTF-8 encoding yields at least one byte per character.
pub proof fn lemma_encode_utf8_len_ge(chars: Seq<char>)
    ensures
        vstd::utf8::encode_utf8(chars).len() >= chars.len(),
    decreases chars.len(),
{
    if chars.len() > 0 {
        lemma_encode_utf8_len_ge(chars.drop_first());
        assert(vstd::utf8::encode_scalar(chars[0] as u32).len() >= 1);
    }
}

/// The characters an ASCII byte sequence denotes.
pub open spec fn chars_of_bytes(b: Seq<u8>) -> Seq<char> {
    b.map(|i: int, x: u8| x as char)
}

/// Every byte is seven-bit.
pub open spec fn all_ascii(s: Seq<u8>) -> bool {
    forall|i: int| 0 <= i < s.len() ==> #[trigger] s[i] < 128
}

/// Pin a literal's UTF-8 bytes: a string whose characters are exactly the
/// given seven-bit bytes encodes to those bytes.
pub proof fn lemma_literal_bytes(s: &str, b: Seq<u8>)
    requires
        s@.len() == b.len(),
        forall|i: int| 0 <= i < b.len() ==> s@[i] == (#[trigger] b[i]) as char,
        all_ascii(b),
    ensures
        s.spec_bytes() == b,
{
    assert(s@ =~= chars_of_bytes(b));
    lemma_ascii_string_bytes(s, b);
}

/// A single whitespace-free word is one token.
pub proof fn lemma_tokens_single(t: Seq<u8>)
    requires
        t.len() >= 1,
        forall|i: int| 0 <= i < t.len() ==> !is_ws(#[trigger] t[i]),
    ensures
        spec_tokens(t) == seq![t],
{
    lemma_find_first_ws_is(t, t.len() as int);
    assert(t.take(t.len() as int) =~= t);
    assert(spec_tokens(t.skip(t.len() as int)) =~= Seq::<Seq<u8>>::empty());
    assert(spec_tokens(t) =~= seq![t]);
}

/// Appending a space and one word to any text appends one token.
pub proof fn lemma_tokens_append_word(a: Seq<u8>, t: Seq<u8>)
    requires
        t.len() >= 1,
        forall|i: int| 0 <= i < t.len() ==> !is_ws(#[trigger] t[i]),
    ensures
        spec_tokens(a + seq![32u8] + t) == spec_tokens(a).push(t),
    decreases a.len(),
{
    let s = a + seq![32u8] + t;
    if a.len() == 0 {
        assert(is_ws(s[0]));
        assert(s.drop_first() =~= t);
        lemma_tokens_single(t);
        assert(spec_tokens(a) =~= Seq::<Seq<u8>>::empty());
        assert(spec_tokens(a).push(t) =~= seq![t]);
    } else if is_ws(a[0]) {
        assert(s[0] == a[0]);
        assert(s.drop_first() =~= a.drop_first() + seq![32u8] + t);
        lemma_tokens_append_word(a.drop_first(), t);
    } else {
        lemma_find_first_ws(a);
        let k = find_first_ws(a);
        assert(s[0] == a[0]);
        if k < a.len() {
            assert forall|j: int| 0 <= j < k implies !is_ws(s[j]) by {
                assert(s[j] == a[j]);
            }
            assert(s[k] == a[k]);
            lemma_find_first_ws_is(s, k);
            assert(s.take(k) =~= a.take(k));
            assert(s.skip(k) =~= a.skip(k) + seq![32u8] + t);
            lemma_tokens_append_word(a.skip(k), t);
            assert(spec_tokens(s) == seq![a.take(k)] + spec_tokens(a.skip(k)).push(t));
            assert(seq![a.take(k)] + spec_tokens(a.skip(k)).push(t) =~= (seq![a.take(k)]
                + spec_tokens(a.skip(k))).push(t));
        } else {
            assert forall|j: int| 0 <= j < a.len() implies !is_ws(s[j]) by {
                assert(s[j] == a[j]);
            }
            assert(s[a.len() as int] == 32);
            lemma_find_first_ws_is(s, a.len() as int);
            assert(s.take(a.len() as int) =~= a);
            assert(s.skip(a.len() as int) =~= seq![32u8] + t);
            assert((seq![32u8] + t).len() == 1 + t.len());
            assert((seq![32u8] + t)[0] == 32u8);
            assert((seq![32u8] + t).drop_first() =~= t);
            lemma_tokens_single(t);
            lemma_tokens_single(a);
            assert(spec_tokens(seq![32u8] + t) == spec_tokens(t));
            assert(spec_tokens(s) == seq![s.take(a.len() as int)] + spec_tokens(
                s.skip(a.len() as int),
            ));
            assert(spec_tokens(s) =~= seq![a, t]);
            assert(spec_tokens(a).push(t) =~= seq![a, t]);
        }
    }
}

/// Trimming touches nothing on an all-digit string.
pub proof fn lemma_trim_digits(s: Seq<u8>)
    requires
        s.len() >= 1,
        all_digits(s),
    ensures
        spec_trim(s) == s,
{
    assert(is_digit(s[0]));
    assert(is_digit(s.last()));
}

/// The decimal digits of a signed value: a minus sign for negatives.
pub open spec fn spec_i64_digits(v: int) -> Seq<u8> {
    if v < 0 {
        seq![45u8] + spec_u64_digits((-v) as nat)
    } else {
        spec_u64_digits(v as nat)
    }
}

/// Render a signed value in decimal.
pub fn i64_digits(v: i64) -> (r: Vec<u8>)
    requires
        v > i64::MIN,
    ensures
        r@ == spec_i64_digits(v as int),
{
    if v < 0 {
        let mut r: Vec<u8> = Vec::new();
        r.push(45);
        let d = u64_digits((-v) as u64);
        append_bytes(&mut r, d.as_slice());
        proof {
            assert(r@ =~= spec_i64_digits(v as int));
        }
        r
    } else {
        let r = u64_digits(v as u64);
        r
    }
}

/// The decimal digits of `v`, left-padded with zeros to at least `width`.
pub open spec fn spec_padded_digits(v: nat, width: int) -> Seq<u8> {
    let d = spec_u64_digits(v);
    if d.len() >= width {
        d
    } else {
        Seq::new((width - d.len()) as nat, |i: int| 48u8) + d
    }
}

/// Render `v` zero-padded to at least `width` digits.
pub fn padded_digits(v: u64, width: usize) -> (r: Vec<u8>)
    requires
        width <= 64,
    ensures
        r@ == spec_padded_digits(v as nat, width as int),
{
    let d = u64_digits(v);
    if d.len() >= width {
        d
    } else {
        let mut r: Vec<u8> = Vec::new();
        let pad = width - d.len();
        let mut i: usize = 0;
        while i < pad
            invariant
                i <= pad,
                r@ == Seq::new(i as nat, |j: int| 48u8),
            decreases pad - i,
        {
            r.push(48);
            proof {
                assert(r@ =~= Seq::new(i as nat + 1, |j: int| 48u8));
            }
            i = i + 1;
        }
        append_bytes(&mut r, d.as_slice());
        r
    }
}

/// Relies on `String::from_utf8`: on bytes that are valid UTF-8 (the caller
/// supplies ASCII) it returns the string with exactly those bytes.
#[verifier::external_body]
pub fn ascii_to_string(bytes: Vec<u8>) -> (r: String)
    requires
        forall|j: int| 0 <= j < bytes@.len() ==> bytes@[j] < 128,
    ensures
        r@ == chars_of_bytes(bytes@),
{
    String::from_utf8(bytes).unwrap()
}

/// A string whose characters came from ASCII bytes has exactly those bytes
/// as its UTF-8 encoding.
pub proof fn lemma_ascii_string_bytes(s: &str, b: Seq<u8>)
    requires
        s@ == chars_of_bytes(b),
        forall|j: int| 0 <= j < b.len() ==> b[j] < 128,
    ensures
        s.spec_bytes() == b,
        s.is_ascii(),
{
    assert(vstd::string::is_ascii(s)) by {
        assert forall|i: int| 0 <= i < s@.len() implies '\0' <= #[trigger] s@[i]
            <= '\u{7f}' by {
            assert(s@[i] == b[i] as char);
        }
    }
    vstd::string::is_ascii_spec_bytes(s);
    assert(s.spec_bytes() =~= b);
}

} // verus!
