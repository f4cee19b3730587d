//! Text as sequences of characters.

use vstd::prelude::*;

verus! {

/// `String::push` puts one character behind the others.
pub assume_specification[ String::push ](s: &mut String, c: char)
    ensures
        final(s)@ == old(s)@.push(c),
;

/// What an optional text is.
pub open spec fn seen_text(o: Option<&str>) -> Option<Seq<char>> {
    match o {
        Some(s) => Some(s@),
        None => None,
    }
}

/// What an optional string is.
pub open spec fn seen_string(o: Option<String>) -> Option<Seq<char>> {
    match o {
        Some(s) => Some(s@),
        None => None,
    }
}

/// The texts that a list of strings holds.
pub open spec fn texts(v: Seq<String>) -> Seq<Seq<char>> {
    v.map_values(|s: String| s@)
}

/// A text, or another where there is none.
pub open spec fn or_text(o: Option<Seq<char>>, default: Seq<char>) -> Seq<char> {
    match o {
        Some(s) => s,
        None => default,
    }
}

/// An integer, or zero where there is none.
pub open spec fn or_zero(o: Option<int>) -> int {
    match o {
        Some(n) => n,
        None => 0,
    }
}

/// The characters of a string, in order.
pub fn chars_of(s: &str) -> (r: Vec<char>)
    ensures
        r@ == s@,
{
    let mut r: Vec<char> = Vec::new();
    for c in it: s.chars()
        invariant
            r@ == s@.take(it.index()),
            it.seq() == s@,
    {
        r.push(c);
    }
    r
}

/// The string that holds the given characters.
pub fn string_of(v: &Vec<char>) -> (r: String)
    ensures
        r@ == v@,
{
    let mut r = String::new();
    let mut i: usize = 0;
    while i < v.len()
        invariant
            i <= v@.len(),
            r@ == v@.take(i as int),
        decreases v@.len() - i,
    {
        r.push(v[i]);
        i += 1;
    }
    assert(v@.take(i as int) == v@);
    r
}

/// Whether two strings hold the same characters.
pub fn same(a: &str, b: &str) -> (r: bool)
    ensures
        r == (a@ == b@),
{
    let x = a.as_bytes();
    let y = b.as_bytes();
    proof {
        vstd::utf8::encode_utf8_decode_utf8(a@);
        vstd::utf8::encode_utf8_decode_utf8(b@);
    }
    if x.len() != y.len() {
        return false;
    }
    let mut i: usize = 0;
    while i < x.len()
        invariant
            i <= x@.len(),
            x@.len() == y@.len(),
            x@ == vstd::utf8::encode_utf8(a@),
            y@ == vstd::utf8::encode_utf8(b@),
            x@.take(i as int) == y@.take(i as int),
        decreases x@.len() - i,
    {
        if x[i] != y[i] {
            return false;
        }
        assert(x@.take(i + 1) == x@.take(i as int).push(x@[i as int]));
        assert(y@.take(i + 1) == y@.take(i as int).push(y@[i as int]));
        i += 1;
    }
    assert(x@ == x@.take(i as int));
    assert(y@ == y@.take(i as int));
    true
}

/// The characters `from` up to `to` as a string.
pub fn slice(v: &Vec<char>, from: usize, to: usize) -> (r: String)
    requires
        from <= to <= v@.len(),
    ensures
        r@ == v@.subrange(from as int, to as int),
{
    let mut r = String::new();
    let mut i: usize = from;
    while i < to
        invariant
            from <= i <= to <= v@.len(),
            r@ == v@.subrange(from as int, i as int),
        decreases to - i,
    {
        r.push(v[i]);
        i += 1;
    }
    r
}

// --- numbers -------------------------------------------------------------------

/// The decimal digit of a number below ten.
pub open spec fn digit(d: int) -> char {
    (48 + d) as char
}

/// A natural number in decimal.
pub open spec fn nat_text(n: nat) -> Seq<char>
    decreases n,
{
    if n < 10 {
        seq![digit(n as int)]
    } else {
        nat_text(n / 10).push(digit((n % 10) as int))
    }
}

/// An integer in decimal.
pub open spec fn int_text(n: int) -> Seq<char> {
    if n < 0 {
        seq!['-'] + nat_text((-n) as nat)
    } else {
        nat_text(n as nat)
    }
}

/// Whether a text is made of decimal digits, and is not empty.
pub open spec fn all_digits(s: Seq<char>) -> bool {
    s.len() > 0 && forall|i: int| 0 <= i < s.len() ==> '0' <= #[trigger] s[i] <= '9'
}

/// The number that decimal digits stand for.
pub open spec fn digits_value(s: Seq<char>) -> nat
    decreases s.len(),
{
    if s.len() == 0 {
        0
    } else {
        (10 * digits_value(s.drop_last()) + (s.last() as int - '0' as int)) as nat
    }
}

/// The text behind a sign, where there is one.
pub open spec fn unsigned_part(s: Seq<char>) -> Seq<char> {
    if s.len() > 0 && (s[0] == '-' || s[0] == '+') {
        s.skip(1)
    } else {
        s
    }
}

/// The signed 64-bit integer that a text is, if it is one: digits with a sign before
/// them or none.
pub open spec fn parsed_int(s: Seq<char>) -> Option<int> {
    let body = unsigned_part(s);
    let n = if s.len() > 0 && s[0] == '-' {
        -(digits_value(body) as int)
    } else {
        digits_value(body) as int
    };
    if all_digits(body) && i64::MIN <= n <= i64::MAX {
        Some(n)
    } else {
        None
    }
}

/// The unsigned 64-bit integer that a text is, if it is one: digits, with a plus sign
/// before them or none.
pub open spec fn parsed_nat(s: Seq<char>) -> Option<nat> {
    let body = if s.len() > 0 && s[0] == '+' {
        s.skip(1)
    } else {
        s
    };
    if all_digits(body) && digits_value(body) <= u64::MAX {
        Some(digits_value(body))
    } else {
        None
    }
}

/// A natural number in decimal.
pub fn show_u64(n: u64) -> (r: String)
    ensures
        r@ == nat_text(n as nat),
    decreases n,
{
    let d: u8 = 48 + (n % 10) as u8;
    let mut r = if n < 10 {
        String::new()
    } else {
        show_u64(n / 10)
    };
    r.push(d as char);
    assert(r@ == nat_text(n as nat));
    r
}

/// An integer in decimal.
pub fn show_i64(n: i64) -> (r: String)
    ensures
        r@ == int_text(n as int),
{
    if n >= 0 {
        return show_u64(n as u64);
    }
    let m: u64 = (-(n as i128)) as u64;
    let mut r = String::new();
    r.push('-');
    r.append(show_u64(m).as_str());
    r
}

/// A length in decimal.
pub fn show_usize(n: usize) -> (r: String)
    ensures
        r@ == nat_text(n as nat),
{
    show_u64(n as u64)
}

/// The value of the digits from `from` on, if all are digits, there are any, and the
/// value fits in 64 bits.
fn read_digits(v: &Vec<char>, from: usize) -> (r: Option<u64>)
    requires
        from <= v@.len(),
    ensures
        r == (if all_digits(v@.skip(from as int)) && digits_value(v@.skip(from as int)) <= u64::MAX {
            Some(digits_value(v@.skip(from as int)) as u64)
        } else {
            None
        }),
{
    let ghost body = v@.skip(from as int);
    if from == v.len() {
        return None;
    }
    let mut n: u64 = 0;
    let mut over: bool = false;
    let mut i: usize = from;
    while i < v.len()
        invariant
            from <= i <= v@.len(),
            body == v@.skip(from as int),
            forall|j: int| 0 <= j < i - from ==> '0' <= #[trigger] body[j] <= '9',
            !over ==> n == digits_value(body.take(i - from)),
            over ==> digits_value(body.take(i - from)) > u64::MAX,
        decreases v@.len() - i,
    {
        let c = v[i];
        assert(body[i - from] == c);
        if c < '0' || c > '9' {
            return None;
        }
        let d: u64 = c as u64 - 48;
        proof {
            let p = body.take(i + 1 - from);
            assert(p.drop_last() == body.take(i - from));
            assert(p.last() == c);
        }
        if over || n > (u64::MAX - d) / 10 {
            over = true;
        } else {
            n = n * 10 + d;
        }
        i += 1;
    }
    assert(body.take(i - from) == body);
    if over {
        None
    } else {
        Some(n)
    }
}

/// Reads a signed 64-bit integer, as `str::parse` does.
pub fn parse_i64(s: &str) -> (r: Option<i64>)
    ensures
        r == (match parsed_int(s@) {
            Some(n) => Some(n as i64),
            None => None,
        }),
{
    let v = chars_of(s);
    if v.len() == 0 {
        return None;
    }
    let neg = v[0] == '-';
    let from: usize = if neg || v[0] == '+' {
        1
    } else {
        0
    };
    assert(v@.skip(from as int) == unsigned_part(s@));
    match read_digits(&v, from) {
        None => None,
        Some(n) => {
            if neg {
                if n <= 0x8000_0000_0000_0000 {
                    Some((-(n as i128)) as i64)
                } else {
                    None
                }
            } else if n <= 0x7fff_ffff_ffff_ffff {
                Some(n as i64)
            } else {
                None
            }
        },
    }
}

/// Reads an unsigned 64-bit integer, as `str::parse` does.
pub fn parse_u64(s: &str) -> (r: Option<u64>)
    ensures
        r == (match parsed_nat(s@) {
            Some(n) => Some(n as u64),
            None => None,
        }),
{
    let v = chars_of(s);
    if v.len() == 0 {
        return None;
    }
    let from: usize = if v[0] == '+' {
        1
    } else {
        0
    };
    assert(v@.skip(0) == v@);
    read_digits(&v, from)
}

/// Digits are written so that they read back.
pub proof fn lemma_digits_read_back(n: nat)
    ensures
        all_digits(nat_text(n)),
        digits_value(nat_text(n)) == n,
    decreases n,
{
    if n < 10 {
        assert(nat_text(n).drop_last() == Seq::<char>::empty());
        assert(digits_value(Seq::<char>::empty()) == 0);
    } else {
        lemma_digits_read_back(n / 10);
        assert(nat_text(n).drop_last() == nat_text(n / 10));
    }
}

/// An integer is written so that it reads back.
pub proof fn lemma_int_reads_back(n: int)
    requires
        i64::MIN <= n <= i64::MAX,
    ensures
        parsed_int(int_text(n)) == Some(n),
{
    if n < 0 {
        lemma_digits_read_back((-n) as nat);
        assert(int_text(n).skip(1) == nat_text((-n) as nat));
    } else {
        lemma_digits_read_back(n as nat);
        assert('0' <= nat_text(n as nat)[0]);
    }
}

// --- searching and cutting -----------------------------------------------------

/// Whether `pat` stands in `s` at `i`.
pub open spec fn at(s: Seq<char>, pat: Seq<char>, i: int) -> bool {
    0 <= i && i + pat.len() <= s.len() && s.subrange(i, i + pat.len()) == pat
}

/// Whether `s` begins with `pat`.
pub open spec fn begins(s: Seq<char>, pat: Seq<char>) -> bool {
    at(s, pat, 0)
}

/// Whether `part` stands anywhere in `s`.
pub open spec fn holds(s: Seq<char>, part: Seq<char>) -> bool {
    exists|i: int| #[trigger] at(s, part, i)
}

/// A text holds what stands between two others in it.
pub proof fn lemma_holds(a: Seq<char>, part: Seq<char>, b: Seq<char>)
    ensures
        holds(a + part + b, part),
{
    let n = a.len() as int;
    assert((a + part + b).subrange(n, n + part.len()) == part);
    assert(at(a + part + b, part, n));
}

/// The first place from `i` on where `pat` stands in `s`.
pub open spec fn found_from(s: Seq<char>, pat: Seq<char>, i: int) -> Option<int>
    decreases s.len() + 1 - i,
{
    if i < 0 || i + pat.len() > s.len() {
        None
    } else if at(s, pat, i) {
        Some(i)
    } else {
        found_from(s, pat, i + 1)
    }
}

/// The first place where `pat` stands in `s`.
pub open spec fn found(s: Seq<char>, pat: Seq<char>) -> Option<int> {
    found_from(s, pat, 0)
}

/// Where `c` first stands in `s`; the length of `s` where it does not.
pub open spec fn first_at(s: Seq<char>, c: char) -> nat
    decreases s.len(),
{
    if s.len() == 0 || s[0] == c {
        0
    } else {
        1 + first_at(s.skip(1), c)
    }
}

/// The parts of `s` between the characters `c`.
pub open spec fn pieces(s: Seq<char>, c: char) -> Seq<Seq<char>>
    decreases s.len(),
{
    let k = first_at(s, c) as int;
    if k < s.len() {
        seq![s.take(k)] + pieces(s.skip(k + 1), c)
    } else {
        seq![s]
    }
}

/// `s` with `with` in place of each `pat`, found from the left without overlap.
pub open spec fn replaced(s: Seq<char>, pat: Seq<char>, with: Seq<char>) -> Seq<char>
    decreases s.len(),
{
    if pat.len() == 0 || s.len() < pat.len() {
        s
    } else if begins(s, pat) {
        with + replaced(s.skip(pat.len() as int), pat, with)
    } else {
        seq![s[0]] + replaced(s.skip(1), pat, with)
    }
}

/// A line without the carriage return before its end.
pub open spec fn without_return(s: Seq<char>) -> Seq<char> {
    if s.len() > 0 && s.last() == '\r' {
        s.drop_last()
    } else {
        s
    }
}

/// The lines of a text: each ends in a line feed, with a carriage return before it or
/// none; the last may end with the text.
pub open spec fn text_lines(s: Seq<char>) -> Seq<Seq<char>>
    decreases s.len(),
{
    let k = first_at(s, '\n') as int;
    if s.len() == 0 {
        seq![]
    } else if k < s.len() {
        seq![without_return(s.take(k))] + text_lines(s.skip(k + 1))
    } else {
        seq![s]
    }
}

/// Texts with `sep` between them.
pub open spec fn joined(parts: Seq<Seq<char>>, sep: Seq<char>) -> Seq<char>
    decreases parts.len(),
{
    if parts.len() == 0 {
        seq![]
    } else if parts.len() == 1 {
        parts[0]
    } else {
        joined(parts.drop_last(), sep) + sep + parts.last()
    }
}

/// Whether `pat` stands in `v` at `i`.
pub fn stands_at(v: &Vec<char>, pat: &Vec<char>, i: usize) -> (r: bool)
    ensures
        r == at(v@, pat@, i as int),
{
    if pat.len() > v.len() || i > v.len() - pat.len() {
        return false;
    }
    let mut j: usize = 0;
    while j < pat.len()
        invariant
            j <= pat@.len(),
            i + pat@.len() <= v@.len() <= usize::MAX,
            forall|k: int| 0 <= k < j ==> v@[i + k] == #[trigger] pat@[k],
        decreases pat@.len() - j,
    {
        if v[i + j] != pat[j] {
            assert(v@.subrange(i as int, i + pat@.len())[j as int] != pat@[j as int]);
            return false;
        }
        j += 1;
    }
    assert(v@.subrange(i as int, i + pat@.len()) == pat@);
    true
}

/// Whether a text begins with another.
pub fn starts_with(s: &str, pat: &str) -> (r: bool)
    ensures
        r == begins(s@, pat@),
{
    stands_at(&chars_of(s), &chars_of(pat), 0)
}

/// What follows `pat` at the beginning of `s`.
pub fn strip_prefix(s: &str, pat: &str) -> (r: Option<String>)
    ensures
        match r {
            Some(rest) => begins(s@, pat@) && rest@ == s@.skip(pat@.len() as int),
            None => !begins(s@, pat@),
        },
{
    let v = chars_of(s);
    let p = chars_of(pat);
    if stands_at(&v, &p, 0) {
        Some(slice(&v, p.len(), v.len()))
    } else {
        None
    }
}

/// The first place where `pat` stands in `v`.
pub fn find(v: &Vec<char>, pat: &Vec<char>) -> (r: Option<usize>)
    ensures
        match r {
            Some(i) => found(v@, pat@) == Some(i as int),
            None => found(v@, pat@) is None,
        },
{
    let mut i: usize = 0;
    if pat.len() > v.len() {
        return None;
    }
    while i <= v.len() - pat.len()
        invariant
            pat@.len() <= v@.len(),
            i <= v@.len() - pat@.len() + 1,
            found(v@, pat@) == found_from(v@, pat@, i as int),
        decreases v@.len() + 1 - i,
    {
        if stands_at(v, pat, i) {
            return Some(i);
        }
        if i == v.len() - pat.len() {
            assert(found_from(v@, pat@, i + 1) is None);
            return None;
        }
        i += 1;
    }
    None
}

proof fn lemma_first_at(s: Seq<char>, c: char, i: int)
    requires
        0 <= i <= s.len(),
        forall|j: int| 0 <= j < i ==> #[trigger] s[j] != c,
        i == s.len() || s[i] == c,
    ensures
        first_at(s, c) == i,
    decreases i,
{
    if i > 0 {
        assert(s[0] != c);
        let t = s.skip(1);
        assert forall|j: int| 0 <= j < i - 1 implies #[trigger] t[j] != c by {
            assert(t[j] == s[j + 1]);
        }
        lemma_first_at(t, c, i - 1);
    }
}

/// Where `c` first stands in `v` from `from` on; the length of `v` where it does not.
fn find_char(v: &Vec<char>, c: char, from: usize) -> (r: usize)
    requires
        from <= v@.len(),
    ensures
        from <= r <= v@.len(),
        r == from + first_at(v@.skip(from as int), c),
        r < v@.len() ==> v@[r as int] == c,
{
    let mut i: usize = from;
    while i < v.len() && v[i] != c
        invariant
            from <= i <= v@.len(),
            forall|j: int| from <= j < i ==> #[trigger] v@[j] != c,
        decreases v@.len() - i,
    {
        i += 1;
    }
    proof {
        let s = v@.skip(from as int);
        assert forall|j: int| 0 <= j < i - from implies #[trigger] s[j] != c by {
            assert(s[j] == v@[j + from]);
        }
        lemma_first_at(s, c, i - from);
    }
    i
}

/// The texts before and behind the first `c`.
pub fn split_once(s: &str, c: char) -> (r: Option<(String, String)>)
    ensures
        match r {
            Some((a, b)) => {
                &&& first_at(s@, c) < s@.len()
                &&& a@ == s@.take(first_at(s@, c) as int)
                &&& b@ == s@.skip(first_at(s@, c) as int + 1)
            },
            None => first_at(s@, c) >= s@.len(),
        },
{
    let v = chars_of(s);
    assert(v@.skip(0) == v@);
    let k = find_char(&v, c, 0);
    if k < v.len() {
        Some((slice(&v, 0, k), slice(&v, k + 1, v.len())))
    } else {
        None
    }
}

/// The parts of a text between the characters `c`.
pub fn split(s: &str, c: char) -> (r: Vec<String>)
    ensures
        texts(r@) == pieces(s@, c),
{
    let v = chars_of(s);
    let mut r: Vec<String> = Vec::new();
    let mut i: usize = 0;
    assert(v@.skip(0) == v@);
    assert(texts(r@) + pieces(v@, c) == pieces(v@, c));
    loop
        invariant
            i <= v@.len(),
            v@ == s@,
            texts(r@) + pieces(v@.skip(i as int), c) == pieces(s@, c),
        decreases v@.len() - i,
    {
        let ghost rest = v@.skip(i as int);
        let ghost before = r@;
        let k = find_char(&v, c, i);
        r.push(slice(&v, i, k));
        assert(v@.subrange(i as int, k as int) == rest.take(k - i));
        assert(texts(r@) == texts(before).push(rest.take(k - i)));
        if k < v.len() {
            assert(rest.skip(k - i + 1) == v@.skip(k + 1));
            assert(pieces(rest, c) == seq![rest.take(k - i)] + pieces(v@.skip(k + 1), c));
            i = k + 1;
        } else {
            assert(rest.take(k - i) == rest);
            assert(pieces(rest, c) == seq![rest]);
            assert(texts(r@) == pieces(s@, c));
            return r;
        }
    }
}

/// `s` with `with` in place of each `pat`, found from the left without overlap.
pub fn replace(s: &str, pat: &str, with: &str) -> (r: String)
    requires
        pat@.len() > 0,
    ensures
        r@ == replaced(s@, pat@, with@),
{
    let v = chars_of(s);
    let p = chars_of(pat);
    let mut r = String::new();
    let mut i: usize = 0;
    assert(v@.skip(0) == v@);
    assert(r@ + replaced(v@, p@, with@) == replaced(v@, p@, with@));
    while i < v.len()
        invariant
            i <= v@.len(),
            p@.len() > 0,
            v@ == s@,
            p@ == pat@,
            r@ + replaced(v@.skip(i as int), p@, with@) == replaced(s@, pat@, with@),
        decreases v@.len() - i,
    {
        let ghost rest = v@.skip(i as int);
        let ghost before = r@;
        assert(begins(rest, p@) == at(v@, p@, i as int)) by {
            if i + p@.len() <= v@.len() {
                assert(rest.subrange(0, p@.len() as int) == v@.subrange(i as int, i + p@.len()));
            }
        }
        if stands_at(&v, &p, i) {
            r.append(with);
            assert(rest.skip(p@.len() as int) == v@.skip(i + p@.len()));
            assert(before + (with@ + replaced(v@.skip(i + p@.len()), p@, with@)) == r@ + replaced(
                v@.skip(i + p@.len()),
                p@,
                with@,
            ));
            i += p.len();
        } else {
            r.push(v[i]);
            assert(rest.skip(1) == v@.skip(i + 1));
            let ghost tail = replaced(v@.skip(i + 1), p@, with@);
            assert(replaced(rest, p@, with@) == seq![rest[0]] + tail) by {
                if rest.len() < p@.len() {
                    assert(rest.skip(1).len() < p@.len());
                    assert(rest == seq![rest[0]] + rest.skip(1));
                }
            }
            assert(before + (seq![rest[0]] + tail) == r@ + tail);
            i += 1;
        }
    }
    assert(v@.skip(i as int) == Seq::<char>::empty());
    assert(r@ + Seq::<char>::empty() == r@);
    r
}

/// The lines of a text.
pub fn lines(s: &str) -> (r: Vec<String>)
    ensures
        texts(r@) == text_lines(s@),
{
    let v = chars_of(s);
    let mut r: Vec<String> = Vec::new();
    let mut i: usize = 0;
    assert(v@.skip(0) == v@);
    assert(texts(r@) + text_lines(v@) == text_lines(v@));
    while i < v.len()
        invariant
            i <= v@.len(),
            v@ == s@,
            texts(r@) + text_lines(v@.skip(i as int)) == text_lines(s@),
        decreases v@.len() - i,
    {
        let ghost rest = v@.skip(i as int);
        let ghost before = r@;
        let k = find_char(&v, '\n', i);
        if k < v.len() {
            let end: usize = if k > i && v[k - 1] == '\r' {
                k - 1
            } else {
                k
            };
            r.push(slice(&v, i, end));
            assert(without_return(rest.take(k - i)) == v@.subrange(i as int, end as int));
            assert(rest.skip(k - i + 1) == v@.skip(k + 1));
            assert(texts(r@) == texts(before).push(
                without_return(rest.take(k - i)),
            ));
            assert(text_lines(rest) == seq![without_return(rest.take(k - i))] + text_lines(
                v@.skip(k + 1),
            ));
            i = k + 1;
        } else {
            r.push(slice(&v, i, k));
            assert(v@.subrange(i as int, k as int) == rest);
            assert(texts(r@) == texts(before).push(rest));
            assert(text_lines(rest) == seq![rest]);
            i = v.len();
            assert(v@.skip(i as int) == Seq::<char>::empty());
            assert(text_lines(v@.skip(i as int)) == Seq::<Seq<char>>::empty());
        }
    }
    assert(v@.skip(i as int) == Seq::<char>::empty());
    assert(text_lines(v@.skip(i as int)) == Seq::<Seq<char>>::empty());
    assert(texts(r@) == text_lines(s@));
    r
}

/// Texts with `sep` between them.
pub fn join(parts: &Vec<String>, sep: &str) -> (r: String)
    ensures
        r@ == joined(texts(parts@), sep@),
{
    let mut r = String::new();
    let mut i: usize = 0;
    while i < parts.len()
        invariant
            i <= parts@.len(),
            r@ == joined(texts(parts@).take(i as int), sep@),
        decreases parts@.len() - i,
    {
        let ghost all = texts(parts@);
        assert(all.take(i + 1).drop_last() == all.take(i as int));
        if i > 0 {
            r.append(sep);
        }
        r.append(parts[i].as_str());
        proof {
            if i == 0 {
                assert(r@ == all[0]);
            }
        }
        i += 1;
    }
    assert(texts(parts@).take(i as int) == texts(parts@));
    r
}

// --- white space, trimming, padding --------------------------------------------

/// Whether a character is white space (the Unicode property `White_Space`).
pub open spec fn is_white(c: char) -> bool {
    let n = c as int;
    ||| 0x09 <= n <= 0x0d
    ||| n == 0x20
    ||| n == 0x85
    ||| n == 0xa0
    ||| n == 0x1680
    ||| 0x2000 <= n <= 0x200a
    ||| n == 0x2028
    ||| n == 0x2029
    ||| n == 0x202f
    ||| n == 0x205f
    ||| n == 0x3000
}

/// A class of characters that can be cut off at an end of a text.
#[derive(Clone, Copy, Debug)]
pub enum Class {
    /// White space.
    White,
    /// Line feeds and carriage returns.
    LineEnd,
    /// Slashes.
    Slash,
}

impl Class {
    /// Whether a character belongs to the class.
    pub open spec fn has(self, c: char) -> bool {
        match self {
            Class::White => is_white(c),
            Class::LineEnd => c == '\n' || c == '\r',
            Class::Slash => c == '/',
        }
    }

    /// Whether a character belongs to the class.
    pub fn holds(self, c: char) -> (r: bool)
        ensures
            r == self.has(c),
    {
        match self {
            Class::White => {
                let n: u32 = c as u32;
                (0x09 <= n && n <= 0x0d) || n == 0x20 || n == 0x85 || n == 0xa0 || n == 0x1680 || (
                0x2000 <= n && n <= 0x200a) || n == 0x2028 || n == 0x2029 || n == 0x202f || n
                    == 0x205f || n == 0x3000
            },
            Class::LineEnd => c == '\n' || c == '\r',
            Class::Slash => c == '/',
        }
    }
}

/// `s` from its first character on that is not of the class.
pub open spec fn cut_start(s: Seq<char>, class: Class) -> Seq<char>
    decreases s.len(),
{
    if s.len() > 0 && class.has(s[0]) {
        cut_start(s.skip(1), class)
    } else {
        s
    }
}

/// `s` up to its last character that is not of the class.
pub open spec fn cut_end(s: Seq<char>, class: Class) -> Seq<char>
    decreases s.len(),
{
    if s.len() > 0 && class.has(s.last()) {
        cut_end(s.drop_last(), class)
    } else {
        s
    }
}

/// `s` without the white space at its ends.
pub open spec fn trimmed(s: Seq<char>) -> Seq<char> {
    cut_end(cut_start(s, Class::White), Class::White)
}

/// How many characters stand before the first white space.
pub open spec fn word_len(s: Seq<char>) -> nat
    decreases s.len(),
{
    if s.len() == 0 || is_white(s[0]) {
        0
    } else {
        1 + word_len(s.skip(1))
    }
}

/// The words of a text: what stands between runs of white space.
pub open spec fn text_words(s: Seq<char>) -> Seq<Seq<char>>
    decreases s.len(),
{
    if s.len() == 0 {
        seq![]
    } else if is_white(s[0]) {
        text_words(s.skip(1))
    } else {
        proof {
            lemma_word_fits(s);
        }
        seq![s.take(word_len(s) as int)] + text_words(s.skip(word_len(s) as int))
    }
}

/// A word is no longer than the text that it stands in.
pub proof fn lemma_word_fits(s: Seq<char>)
    ensures
        word_len(s) <= s.len(),
    decreases s.len(),
{
    if s.len() > 0 && !is_white(s[0]) {
        lemma_word_fits(s.skip(1));
    }
}

/// `n` times the character `c`.
pub open spec fn repeated(c: char, n: int) -> Seq<char> {
    Seq::new(
        if n < 0 {
            0
        } else {
            n as nat
        },
        |i: int| c,
    )
}

/// `s` with blanks behind it, up to `width` characters.
pub open spec fn padded_right(s: Seq<char>, width: int) -> Seq<char> {
    s + repeated(' ', width - s.len())
}

/// `s` with blanks before it, up to `width` characters.
pub open spec fn padded_left(s: Seq<char>, width: int) -> Seq<char> {
    repeated(' ', width - s.len()) + s
}

/// A text without the characters of the class at its beginning.
pub fn trim_start(s: &str, class: Class) -> (r: String)
    ensures
        r@ == cut_start(s@, class),
{
    let v = chars_of(s);
    let mut i: usize = 0;
    assert(v@.skip(0) == v@);
    while i < v.len() && class.holds(v[i])
        invariant
            i <= v@.len(),
            cut_start(v@.skip(i as int), class) == cut_start(v@, class),
        decreases v@.len() - i,
    {
        assert(v@.skip(i as int).skip(1) == v@.skip(i + 1));
        i += 1;
    }
    slice(&v, i, v.len())
}

/// A text without the characters of the class at its end.
pub fn trim_end(s: &str, class: Class) -> (r: String)
    ensures
        r@ == cut_end(s@, class),
{
    let v = chars_of(s);
    let mut n: usize = v.len();
    assert(v@.take(n as int) == v@);
    while n > 0 && class.holds(v[n - 1])
        invariant
            n <= v@.len(),
            cut_end(v@.take(n as int), class) == cut_end(v@, class),
        decreases n,
    {
        assert(v@.take(n as int).drop_last() == v@.take(n - 1));
        n = n - 1;
    }
    slice(&v, 0, n)
}

/// A text without the white space at its ends.
pub fn trim(s: &str) -> (r: String)
    ensures
        r@ == trimmed(s@),
{
    let t = trim_start(s, Class::White);
    trim_end(t.as_str(), Class::White)
}

proof fn lemma_word_len(s: Seq<char>, i: int)
    requires
        0 <= i <= s.len(),
        forall|j: int| 0 <= j < i ==> !is_white(#[trigger] s[j]),
        i == s.len() || is_white(s[i]),
    ensures
        word_len(s) == i,
    decreases i,
{
    if i > 0 {
        assert(!is_white(s[0]));
        let t = s.skip(1);
        assert forall|j: int| 0 <= j < i - 1 implies !is_white(#[trigger] t[j]) by {
            assert(t[j] == s[j + 1]);
        }
        lemma_word_len(t, i - 1);
    }
}

/// The words of a text.
pub fn words(s: &str) -> (r: Vec<String>)
    ensures
        texts(r@) == text_words(s@),
{
    let v = chars_of(s);
    let mut r: Vec<String> = Vec::new();
    let mut i: usize = 0;
    assert(v@.skip(0) == v@);
    assert(texts(r@) + text_words(v@) == text_words(v@));
    while i < v.len()
        invariant
            i <= v@.len(),
            v@ == s@,
            texts(r@) + text_words(v@.skip(i as int)) == text_words(s@),
        decreases v@.len() - i,
    {
        let ghost rest = v@.skip(i as int);
        if Class::White.holds(v[i]) {
            assert(rest.skip(1) == v@.skip(i + 1));
            i += 1;
        } else {
            let ghost before = r@;
            let mut k: usize = i;
            while k < v.len() && !Class::White.holds(v[k])
                invariant
                    i <= k <= v@.len(),
                    forall|j: int| i <= j < k ==> !is_white(#[trigger] v@[j]),
                decreases v@.len() - k,
            {
                k += 1;
            }
            proof {
                assert forall|j: int| 0 <= j < k - i implies !is_white(#[trigger] rest[j]) by {
                    assert(rest[j] == v@[j + i]);
                }
                lemma_word_len(rest, k - i);
            }
            r.push(slice(&v, i, k));
            assert(v@.subrange(i as int, k as int) == rest.take(k - i));
            assert(rest.skip(k - i) == v@.skip(k as int));
            assert(texts(r@) == texts(before).push(rest.take(k - i)));
            assert(text_words(rest) == seq![rest.take(k - i)] + text_words(v@.skip(k as int)));
            i = k;
        }
    }
    assert(v@.skip(i as int) == Seq::<char>::empty());
    assert(text_words(v@.skip(i as int)) == Seq::<Seq<char>>::empty());
    assert(texts(r@) == text_words(s@));
    r
}

/// Puts `n` times the character `c` behind a text.
pub fn push_repeated(s: &mut String, c: char, n: usize)
    ensures
        final(s)@ == old(s)@ + repeated(c, n as int),
{
    let mut i: usize = 0;
    while i < n
        invariant
            i <= n,
            s@ == old(s)@ + repeated(c, i as int),
        decreases n - i,
    {
        s.push(c);
        i += 1;
        assert(repeated(c, i as int) == repeated(c, i - 1).push(c));
    }
}

/// A text with blanks behind it, up to `width` characters.
pub fn pad_right(s: &str, width: usize) -> (r: String)
    ensures
        r@ == padded_right(s@, width as int),
{
    let n: usize = s.unicode_len();
    let mut r = s.to_owned();
    if n < width {
        push_repeated(&mut r, ' ', width - n);
    }
    assert(r@ == padded_right(s@, width as int));
    r
}

/// A text with blanks before it, up to `width` characters.
pub fn pad_left(s: &str, width: usize) -> (r: String)
    ensures
        r@ == padded_left(s@, width as int),
{
    let n: usize = s.unicode_len();
    let mut r = String::new();
    if n < width {
        push_repeated(&mut r, ' ', width - n);
    }
    r.append(s);
    assert(r@ == padded_left(s@, width as int));
    r
}

// --- quoting ---------------------------------------------------------------------

/// How `format!` writes a text for `{:?}`.
pub uninterp spec fn debug_text(s: Seq<char>) -> Seq<char>;

/// `format!` with `{:?}`: the text in double quotes, with what cannot be printed escaped.
#[verifier::external_body]
pub(crate) fn quote(s: &str) -> (r: String)
    ensures
        r@ == debug_text(s@),
{
    format!("{s:?}")
}

// --- laws ----------------------------------------------------------------------

/// A character is found where it stands first, and found nowhere only where it stands nowhere.
pub proof fn law_first_place_of_a_character(s: Seq<char>, c: char)
    ensures
        first_at(s, c) <= s.len(),
        first_at(s, c) < s.len() ==> s[first_at(s, c) as int] == c,
        forall|j: int| 0 <= j < first_at(s, c) ==> s[j] != c,
        first_at(s, c) < s.len() <==> s.contains(c),
    decreases s.len(),
{
    if s.len() > 0 && s[0] != c {
        law_first_place_of_a_character(s.skip(1), c);
        let k = first_at(s.skip(1), c) as int;
        assert forall|j: int| 0 <= j < first_at(s, c) implies s[j] != c by {
            if j > 0 {
                assert(s.skip(1)[j - 1] == s[j]);
            }
        }
        if k < s.len() - 1 {
            assert(s.skip(1)[k] == s[k + 1]);
        }
        if s.contains(c) {
            let i = choose|i: int| 0 <= i < s.len() && s[i] == c;
            assert(s.skip(1)[i - 1] == c);
        }
    }
}

proof fn lemma_found_from(s: Seq<char>, pat: Seq<char>, i: int)
    requires
        0 <= i,
    ensures
        match found_from(s, pat, i) {
            Some(k) => i <= k && at(s, pat, k) && forall|j: int|
                i <= j < k ==> !#[trigger] at(s, pat, j),
            None => forall|j: int| i <= j ==> !#[trigger] at(s, pat, j),
        },
    decreases s.len() + 1 - i,
{
    if i + pat.len() <= s.len() && !at(s, pat, i) {
        lemma_found_from(s, pat, i + 1);
    }
}

/// A text is found where it stands first, and found nowhere only where it stands nowhere.
pub proof fn law_first_place_of_a_text(s: Seq<char>, pat: Seq<char>)
    ensures
        match found(s, pat) {
            Some(k) => at(s, pat, k) && forall|j: int| j < k ==> !#[trigger] at(s, pat, j),
            None => !holds(s, pat),
        },
{
    lemma_found_from(s, pat, 0);
}

/// What two lists of texts join to follows from what each of them joins to.
pub proof fn law_joining_adds_up(a: Seq<Seq<char>>, b: Seq<Seq<char>>, sep: Seq<char>)
    requires
        a.len() > 0,
        b.len() > 0,
    ensures
        joined(a + b, sep) == joined(a, sep) + sep + joined(b, sep),
    decreases b.len(),
{
    if b.len() == 1 {
        assert((a + b).drop_last() == a);
        assert((a + b).last() == b[0]);
    } else {
        law_joining_adds_up(a, b.drop_last(), sep);
        assert((a + b).drop_last() == a + b.drop_last());
        assert((a + b).last() == b.last());
        assert(joined(a, sep) + sep + joined(b.drop_last(), sep) + sep + b.last() == joined(a, sep)
            + sep + (joined(b.drop_last(), sep) + sep + b.last()));
    }
}

/// The parts between the separators, put together with the separator again, are the text; no
/// part holds the separator.
pub proof fn law_pieces_make_up_the_text(s: Seq<char>, c: char)
    ensures
        pieces(s, c).len() > 0,
        joined(pieces(s, c), seq![c]) == s,
        forall|i: int| 0 <= i < pieces(s, c).len() ==> !(#[trigger] pieces(s, c)[i]).contains(c),
    decreases s.len(),
{
    law_first_place_of_a_character(s, c);
    let k = first_at(s, c) as int;
    let all = pieces(s, c);
    if k < s.len() {
        let head = s.take(k);
        let rest = pieces(s.skip(k + 1), c);
        law_pieces_make_up_the_text(s.skip(k + 1), c);
        law_joining_adds_up(seq![head], rest, seq![c]);
        assert(head + seq![c] + s.skip(k + 1) == s);
        assert forall|i: int| 0 <= i < all.len() implies !(#[trigger] all[i]).contains(c) by {
            if i == 0 {
                assert(all[0] == head);
                assert forall|j: int| 0 <= j < head.len() implies head[j] != c by {
                    assert(head[j] == s[j]);
                }
            } else {
                assert(all[i] == rest[i - 1]);
            }
        }
    } else {
        assert(all[0] == s);
    }
}

/// Where a pattern first stands behind `a`, it is replaced there and what follows is gone
/// through likewise; a text in which it stands nowhere is kept.
pub proof fn law_each_occurrence_is_replaced(
    a: Seq<char>,
    pat: Seq<char>,
    b: Seq<char>,
    with: Seq<char>,
)
    requires
        pat.len() > 0,
        forall|j: int| 0 <= j < a.len() ==> !#[trigger] at(a + pat + b, pat, j),
    ensures
        replaced(a + pat + b, pat, with) == a + with + replaced(b, pat, with),
        !holds(b, pat) ==> replaced(b, pat, with) == b,
    decreases a.len(),
{
    let s = a + pat + b;
    if !holds(b, pat) {
        lemma_nothing_to_replace(b, pat, with);
    }
    if a.len() == 0 {
        assert(s.subrange(0, pat.len() as int) == pat);
        assert(s.skip(pat.len() as int) == b);
        assert(a + with == with);
    } else {
        assert(!at(s, pat, 0));
        let rest = a.skip(1);
        assert(s.skip(1) == rest + pat + b);
        assert forall|j: int| 0 <= j < rest.len() implies !#[trigger] at(rest + pat + b, pat, j) by {
            assert(s.subrange(j + 1, j + 1 + pat.len()) == (rest + pat + b).subrange(
                j,
                j + pat.len(),
            ));
            assert(!at(s, pat, j + 1));
        }
        law_each_occurrence_is_replaced(rest, pat, b, with);
        assert(seq![s[0]] + (rest + with + replaced(b, pat, with)) == a + with + replaced(
            b,
            pat,
            with,
        ));
    }
}

proof fn lemma_nothing_to_replace(s: Seq<char>, pat: Seq<char>, with: Seq<char>)
    requires
        !holds(s, pat),
    ensures
        replaced(s, pat, with) == s,
    decreases s.len(),
{
    assert(!at(s, pat, 0));
    if pat.len() > 0 && s.len() >= pat.len() {
        let rest = s.skip(1);
        assert forall|j: int| !#[trigger] at(rest, pat, j) by {
            if 0 <= j && j + pat.len() <= rest.len() {
                assert(rest.subrange(j, j + pat.len()) == s.subrange(j + 1, j + 1 + pat.len()));
                assert(!at(s, pat, j + 1));
            }
        }
        lemma_nothing_to_replace(rest, pat, with);
        assert(seq![s[0]] + rest == s);
    }
}

/// A line feed ends a line, with a carriage return before it or none; what follows are the
/// other lines. A last line needs no end.
pub proof fn law_line_feed_ends_a_line(line: Seq<char>, rest: Seq<char>)
    requires
        !line.contains('\n'),
    ensures
        text_lines(line + seq!['\r', '\n'] + rest) == seq![line] + text_lines(rest),
        line.len() == 0 || line.last() != '\r' ==> text_lines(line + seq!['\n'] + rest) == seq![line]
            + text_lines(rest),
        line.len() > 0 ==> text_lines(line) == seq![line],
        text_lines(seq![]) == Seq::<Seq<char>>::empty(),
{
    let a = line + seq!['\r', '\n'] + rest;
    law_first_place_of_a_character(a, '\n');
    assert(a[line.len() as int + 1] == '\n');
    let k = first_at(a, '\n') as int;
    assert forall|j: int| 0 <= j < line.len() implies line[j] != '\n' by {
        assert(line.contains(line[j]));
    }
    assert(a[line.len() as int] == '\r');
    if k < line.len() {
        assert(a[k] == line[k]);
    }
    assert(k == line.len() + 1);
    assert(a.take(k) == line.push('\r'));
    assert(line.push('\r').drop_last() == line);
    assert(a.skip(k + 1) == rest);
    let b = line + seq!['\n'] + rest;
    law_first_place_of_a_character(b, '\n');
    assert(b[line.len() as int] == '\n');
    let m = first_at(b, '\n') as int;
    if m < line.len() {
        assert(b[m] == line[m]);
    }
    assert(b.take(m) == line);
    assert(b.skip(m + 1) == rest);
    law_first_place_of_a_character(line, '\n');
}

proof fn lemma_cut_start_past(a: Seq<char>, b: Seq<char>, class: Class)
    requires
        forall|i: int| 0 <= i < a.len() ==> class.has(#[trigger] a[i]),
    ensures
        cut_start(a + b, class) == cut_start(b, class),
    decreases a.len(),
{
    if a.len() == 0 {
        assert(a + b == b);
    } else {
        assert((a + b)[0] == a[0]);
        assert((a + b).skip(1) == a.skip(1) + b);
        lemma_cut_start_past(a.skip(1), b, class);
    }
}

/// What is cut from an end of a text is what stands there of the class, and nothing else.
pub proof fn law_only_the_class_is_cut(a: Seq<char>, body: Seq<char>, b: Seq<char>, class: Class)
    requires
        forall|i: int| 0 <= i < a.len() ==> class.has(#[trigger] a[i]),
        forall|i: int| 0 <= i < b.len() ==> class.has(#[trigger] b[i]),
        body.len() > 0 ==> !class.has(body[0]) && !class.has(body.last()),
    ensures
        body.len() > 0 ==> cut_start(a + body, class) == body,
        cut_start(a, class) == Seq::<char>::empty(),
        cut_end(body + b, class) == body,
    decreases b.len(),
{
    lemma_cut_start_past(a, body, class);
    lemma_cut_start_past(a, seq![], class);
    assert(a + Seq::<char>::empty() == a);
    if b.len() == 0 {
        assert(body + b == body);
    } else {
        assert((body + b).last() == b.last());
        assert((body + b).drop_last() == body + b.drop_last());
        law_only_the_class_is_cut(a, body, b.drop_last(), class);
    }
}

/// White space at both ends of a text is taken off, and nothing else.
pub proof fn law_white_ends_are_taken_off(a: Seq<char>, body: Seq<char>, b: Seq<char>)
    requires
        forall|i: int| 0 <= i < a.len() ==> is_white(#[trigger] a[i]),
        forall|i: int| 0 <= i < b.len() ==> is_white(#[trigger] b[i]),
        body.len() > 0 ==> !is_white(body[0]) && !is_white(body.last()),
    ensures
        trimmed(a + body + b) == body,
{
    lemma_cut_start_past(a, body + b, Class::White);
    assert(a + (body + b) == a + body + b);
    law_only_the_class_is_cut(a, body, b, Class::White);
    if body.len() > 0 {
        assert((body + b)[0] == body[0]);
    } else {
        assert(body + b == b);
        law_only_the_class_is_cut(b, body, b, Class::White);
    }
}

/// Blanks, tabs and line ends are white space; letters, digits and signs are not.
pub proof fn law_white_space(c: char)
    requires
        c as int <= 126,
    ensures
        is_white(c) <==> c == ' ' || c == '\t' || c == '\n' || c == '\r' || c as int == 11 || c as int
            == 12,
{
}

proof fn lemma_word_whole(s: Seq<char>)
    requires
        forall|i: int| 0 <= i < s.len() ==> !is_white(#[trigger] s[i]),
    ensures
        word_len(s) == s.len(),
    decreases s.len(),
{
    if s.len() > 0 {
        lemma_word_whole(s.skip(1));
    }
}

proof fn lemma_word_before_white(a: Seq<char>, w: char, b: Seq<char>)
    requires
        is_white(w),
    ensures
        word_len(a + seq![w] + b) == word_len(a),
        word_len(a) <= a.len(),
    decreases a.len(),
{
    let s = a + seq![w] + b;
    if a.len() > 0 && !is_white(a[0]) {
        lemma_word_before_white(a.skip(1), w, b);
        assert(s.skip(1) == a.skip(1) + seq![w] + b);
    }
}

/// White space parts words: what stands before it and what stands behind it is read apart. What
/// holds no white space is one word.
pub proof fn law_white_space_parts_words(a: Seq<char>, w: char, b: Seq<char>)
    requires
        is_white(w),
    ensures
        text_words(a + seq![w] + b) == text_words(a) + text_words(b),
        a.len() > 0 && (forall|i: int| 0 <= i < a.len() ==> !is_white(#[trigger] a[i]))
            ==> text_words(a) == seq![a],
        text_words(seq![]) == Seq::<Seq<char>>::empty(),
    decreases a.len(),
{
    let s = a + seq![w] + b;
    if a.len() == 0 {
        assert(s.skip(1) == b);
        assert(text_words(a) + text_words(b) == text_words(b));
    } else if is_white(a[0]) {
        law_white_space_parts_words(a.skip(1), w, b);
        assert(s.skip(1) == a.skip(1) + seq![w] + b);
    } else {
        lemma_word_before_white(a, w, b);
        lemma_word_fits(a);
        let k = word_len(a) as int;
        assert(s.take(k) == a.take(k));
        assert(s.skip(k) == a.skip(k) + seq![w] + b);
        law_white_space_parts_words(a.skip(k), w, b);
        assert(seq![a.take(k)] + (text_words(a.skip(k)) + text_words(b)) == seq![a.take(k)]
            + text_words(a.skip(k)) + text_words(b));
    }
    if a.len() > 0 && forall|i: int| 0 <= i < a.len() ==> !is_white(#[trigger] a[i]) {
        lemma_word_whole(a);
        assert(a.take(a.len() as int) == a);
        assert(a.skip(a.len() as int) == Seq::<char>::empty());
        assert(text_words(a.skip(a.len() as int)) == Seq::<Seq<char>>::empty());
    }
}

/// A further digit stands for ones, and makes each of the others stand for ten times as much.
pub proof fn law_digits_have_their_places(ds: Seq<char>, d: char)
    requires
        all_digits(ds) || ds.len() == 0,
        '0' <= d <= '9',
    ensures
        digits_value(ds.push(d)) == 10 * digits_value(ds) + (d as int - '0' as int),
        digits_value(seq![]) == 0,
{
    assert(ds.push(d).drop_last() == ds);
    assert(ds.push(d).last() == d);
}

/// A minus sign turns a number round, and a plus sign leaves it as it is. What holds anything
/// but digits behind the sign is no number, nor is what is too large or has no digits.
pub proof fn law_sign_stands_first(ds: Seq<char>)
    requires
        all_digits(ds),
    ensures
        digits_value(ds) <= i64::MAX ==> parsed_int(ds) == Some(digits_value(ds) as int)
            && parsed_int(seq!['+'] + ds) == Some(digits_value(ds) as int),
        digits_value(ds) > i64::MAX ==> parsed_int(ds) is None && parsed_int(seq!['+'] + ds) is None,
        -(digits_value(ds) as int) >= i64::MIN ==> parsed_int(seq!['-'] + ds) == Some(
            -(digits_value(ds) as int),
        ),
        -(digits_value(ds) as int) < i64::MIN ==> parsed_int(seq!['-'] + ds) is None,
        digits_value(ds) <= u64::MAX ==> parsed_nat(ds) == Some(digits_value(ds)) && parsed_nat(
            seq!['+'] + ds,
        ) == Some(digits_value(ds)),
        digits_value(ds) > u64::MAX ==> parsed_nat(ds) is None,
        parsed_nat(seq!['-'] + ds) is None,
{
    assert(ds[0] != '-' && ds[0] != '+');
    assert((seq!['+'] + ds).skip(1) == ds);
    assert((seq!['-'] + ds).skip(1) == ds);
    assert((seq!['-'] + ds)[0] == '-');
}

/// A text with anything but a digit in it, save a sign at its start, is no number; nor is one
/// without digits.
pub proof fn law_only_digits_make_a_number(s: Seq<char>, i: int)
    requires
        0 <= i < s.len(),
        !('0' <= s[i] <= '9'),
        i > 0 || (s[0] != '-' && s[0] != '+') || s.len() == 1,
    ensures
        parsed_int(s) is None,
        parsed_nat(s) is None,
        parsed_int(seq![]) is None,
        parsed_nat(seq![]) is None,
{
    let body = unsigned_part(s);
    if all_digits(body) && s.len() > 0 && (s[0] == '-' || s[0] == '+') {
        assert(body[i - 1] == s[i]);
    }
    if s.len() > 0 && s[0] == '+' && all_digits(s.skip(1)) {
        assert(s.skip(1)[i - 1] == s[i]);
    }
}

/// A padded text is the text with blanks on one side, as many as it lacks.
pub proof fn law_padding_adds_blanks(s: Seq<char>, width: int)
    ensures
        padded_right(s, width).len() == (if width > s.len() {
            width
        } else {
            s.len() as int
        }),
        padded_left(s, width).len() == padded_right(s, width).len(),
        padded_right(s, width).take(s.len() as int) == s,
        padded_left(s, width).skip(padded_left(s, width).len() - s.len()) == s,
        forall|i: int|
            s.len() <= i < padded_right(s, width).len() ==> padded_right(s, width)[i] == ' ',
        forall|i: int|
            0 <= i < padded_left(s, width).len() - s.len() ==> padded_left(s, width)[i] == ' ',
{
}

/// Texts without the separator in them, put together with it, are parted into the same texts.
pub proof fn lemma_pieces_of_joined(parts: Seq<Seq<char>>, c: char)
    requires
        parts.len() > 0,
        forall|i: int| 0 <= i < parts.len() ==> !(#[trigger] parts[i]).contains(c),
    ensures
        pieces(joined(parts, seq![c]), c) == parts,
    decreases parts.len(),
{
    let first = parts[0];
    let s = joined(parts, seq![c]);
    law_first_place_of_a_character(first, c);
    if parts.len() == 1 {
        assert(pieces(s, c) == parts);
    } else {
        let rest = parts.skip(1);
        assert(seq![first] + rest == parts);
        law_joining_adds_up(seq![first], rest, seq![c]);
        assert(joined(seq![first], seq![c]) == first);
        let tail = joined(rest, seq![c]);
        law_first_place_of_a_character(s, c);
        let k = first_at(s, c) as int;
        assert(s[first.len() as int] == c);
        if k < first.len() {
            assert(s[k] == first[k]);
            assert(first.contains(first[k]));
        }
        assert(k == first.len());
        assert(s.take(k) == first);
        assert(s.skip(k + 1) == tail);
        assert forall|i: int| 0 <= i < rest.len() implies !(#[trigger] rest[i]).contains(c) by {
            assert(rest[i] == parts[i + 1]);
        }
        lemma_pieces_of_joined(rest, c);
    }
}

} // verus!
