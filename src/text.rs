use vstd::prelude::*;
use vstd::string::StringExecFns;
use crate::error::Error;

verus! {

pub open spec fn is_digit(c: char) -> bool {
    '0' <= c && c <= '9'
}

pub open spec fn all_digits(s: Seq<char>) -> bool {
    forall|i: int| 0 <= i < s.len() ==> is_digit(#[trigger] s[i])
}

/// The number that a string of decimal digits writes.
pub open spec fn digits_value(s: Seq<char>) -> nat
    decreases s.len(),
{
    if s.len() == 0 {
        0
    } else {
        digits_value(s.drop_last()) * 10 + ((s.last() as nat) - ('0' as nat)) as nat
    }
}

/// The milliseconds that a duration text stands for: a bare integer is
/// seconds, a trailing `s` seconds and a trailing `m` minutes.
pub open spec fn duration_ms(s: Seq<char>) -> Option<nat> {
    if s.len() == 0 {
        None
    } else if all_digits(s) {
        Some(digits_value(s) * 1000)
    } else if s.len() > 1 && all_digits(s.drop_last()) && s.last() == 's' {
        Some(digits_value(s.drop_last()) * 1000)
    } else if s.len() > 1 && all_digits(s.drop_last()) && s.last() == 'm' {
        Some(digits_value(s.drop_last()) * 60000)
    } else {
        None
    }
}

/// What parsing a duration text gives: its milliseconds, where they fit in
/// a `u64`.
pub open spec fn duration_outcome(s: Seq<char>) -> Result<u64, Error> {
    match duration_ms(s) {
        Some(v) => if v <= u64::MAX {
            Ok(v as u64)
        } else {
            Err(Error::InvalidInput)
        },
        None => Err(Error::InvalidInput),
    }
}

/// The characters of `s`, one by one.
pub fn chars_of(s: &str) -> (r: Vec<char>)
    ensures
        r@ == s@,
{
    let n: usize = s.unicode_len();
    let mut r: Vec<char> = Vec::new();
    let mut i: usize = 0;
    while i < n
        invariant
            n == s@.len(),
            i <= n,
            r@ == s@.take(i as int),
        decreases n - i,
    {
        r.push(s.get_char(i));
        assert(s@.take(i as int + 1) =~= s@.take(i as int).push(s@[i as int]));
        i += 1;
    }
    assert(s@.take(n as int) =~= s@);
    r
}

/// Whether `c[..n]` holds only decimal digits.
fn digits_only(c: &Vec<char>, n: usize) -> (r: bool)
    requires
        n <= c@.len(),
    ensures
        r == all_digits(c@.take(n as int)),
{
    let mut i: usize = 0;
    while i < n
        invariant
            n <= c@.len(),
            i <= n,
            forall|k: int| 0 <= k < i ==> is_digit(#[trigger] c@[k]),
        decreases n - i,
    {
        if !('0' <= c[i] && c[i] <= '9') {
            assert(!is_digit(c@.take(n as int)[i as int]));
            return false;
        }
        i += 1;
    }
    assert forall|k: int| 0 <= k < n implies is_digit(#[trigger] c@.take(n as int)[k]) by {
        assert(c@.take(n as int)[k] == c@[k]);
    }
    true
}

/// The value of the digits `c[..n]`, where they are all digits and the value
/// fits in a `u64`.
fn parse_digits(c: &Vec<char>, n: usize) -> (r: Option<u64>)
    requires
        n <= c@.len(),
    ensures
        r is Some <==> all_digits(c@.take(n as int)) && digits_value(c@.take(n as int)) <= u64::MAX,
        r is Some ==> r->0 == digits_value(c@.take(n as int)),
{
    let mut acc: u64 = 0;
    let mut fits = true;
    let mut i: usize = 0;
    while i < n
        invariant
            n <= c@.len(),
            i <= n,
            all_digits(c@.take(i as int)),
            fits ==> acc == digits_value(c@.take(i as int)),
            !fits ==> digits_value(c@.take(i as int)) > u64::MAX,
        decreases n - i,
    {
        let ch = c[i];
        let ghost pre = c@.take(i as int);
        let ghost next = c@.take(i as int + 1);
        proof {
            assert(next.drop_last() =~= pre);
            assert(next.last() == ch);
        }
        if !('0' <= ch && ch <= '9') {
            proof {
                assert(!is_digit(c@.take(n as int)[i as int]));
            }
            return None;
        }
        let d: u64 = (ch as u32 - '0' as u32) as u64;
        assert(d == (ch as nat) - ('0' as nat));
        if fits {
            if acc > (u64::MAX - d) / 10 {
                fits = false;
                assert(acc * 10 + d > u64::MAX) by (nonlinear_arith)
                    requires
                        acc > (u64::MAX - d) / 10,
                        d <= 9,
                ;
            } else {
                assert(acc * 10 + d <= u64::MAX) by (nonlinear_arith)
                    requires
                        acc <= (u64::MAX - d) / 10,
                        d <= 9,
                ;
                acc = acc * 10 + d;
            }
        } else {
            assert(digits_value(next) >= digits_value(pre)) by (nonlinear_arith)
                requires
                    digits_value(next) == digits_value(pre) * 10 + d,
            ;
        }
        assert forall|k: int| 0 <= k < next.len() implies is_digit(#[trigger] next[k]) by {
            if k < i {
                assert(next[k] == pre[k]);
            }
        }
        i += 1;
    }
    if fits {
        Some(acc)
    } else {
        None
    }
}

/// Parses a duration: a bare integer is seconds, a trailing `s` is seconds
/// and a trailing `m` minutes; the result is in milliseconds. Anything else,
/// or a duration past the range of `u64`, is invalid input.
pub fn parse_duration(s: &str) -> (r: Result<u64, Error>)
    ensures
        r == duration_outcome(s@),
{
    let c = chars_of(s);
    let n: usize = c.len();
    if n == 0 {
        return Err(Error::InvalidInput);
    }
    proof {
        assert(c@.take(n as int) =~= c@);
        assert(c@.take(n as int - 1) =~= c@.drop_last());
    }
    if digits_only(&c, n) {
        return match parse_digits(&c, n) {
            Some(v) => {
                if v > u64::MAX / 1000 {
                    Err(Error::InvalidInput)
                } else {
                    Ok(v * 1000)
                }
            },
            None => Err(Error::InvalidInput),
        };
    }
    let unit = c[n - 1];
    if n < 2 || (unit != 's' && unit != 'm') {
        return Err(Error::InvalidInput);
    }
    match parse_digits(&c, n - 1) {
        Some(v) => {
            if unit == 's' {
                if v > u64::MAX / 1000 {
                    return Err(Error::InvalidInput);
                }
                Ok(v * 1000)
            } else {
                if v > u64::MAX / 60000 {
                    return Err(Error::InvalidInput);
                }
                Ok(v * 60000)
            }
        },
        None => Err(Error::InvalidInput),
    }
}

/// Unicode white space, as `char::is_whitespace` has it.
pub open spec fn is_space(c: char) -> bool {
    let u: u32 = c as u32;
    ||| 0x09 <= u <= 0x0D
    ||| u == 0x20
    ||| u == 0x85
    ||| u == 0xA0
    ||| u == 0x1680
    ||| 0x2000 <= u <= 0x200A
    ||| u == 0x2028
    ||| u == 0x2029
    ||| u == 0x202F
    ||| u == 0x205F
    ||| u == 0x3000
}

pub fn is_space_exec(c: char) -> (r: bool)
    ensures
        r == is_space(c),
{
    let u: u32 = c as u32;
    (0x09 <= u && u <= 0x0D) || u == 0x20 || u == 0x85 || u == 0xA0 || u == 0x1680 || (0x2000 <= u && u
        <= 0x200A) || u == 0x2028 || u == 0x2029 || u == 0x202F || u == 0x205F || u == 0x3000
}

/// Where the word that covers position `i` of `s` ends.
pub open spec fn word_end(s: Seq<char>, i: int) -> int
    decreases s.len() - i,
{
    if i < 0 || i >= s.len() || is_space(s[i]) {
        i
    } else {
        word_end(s, i + 1)
    }
}

/// Whether a word of `s` begins at position `i`.
pub open spec fn word_start(s: Seq<char>, i: int) -> bool {
    0 <= i < s.len() && !is_space(s[i]) && (i == 0 || is_space(s[i - 1]))
}

/// A word without its leading `#` marks.
pub open spec fn strip_hashes(w: Seq<char>) -> Seq<char>
    decreases w.len(),
{
    if w.len() > 0 && w[0] == '#' {
        strip_hashes(w.drop_first())
    } else {
        w
    }
}

/// The tags written in `s` from position `i` on: each word that begins
/// with `#`, without its leading `#` marks, in order.
pub open spec fn tags_from(s: Seq<char>, i: int) -> Seq<Seq<char>>
    decreases s.len() - i,
{
    if i < 0 || i >= s.len() {
        Seq::empty()
    } else if word_start(s, i) && s[i] == '#' {
        seq![strip_hashes(s.subrange(i, word_end(s, i)))] + tags_from(s, i + 1)
    } else {
        tags_from(s, i + 1)
    }
}

/// The tags written in a free text.
pub open spec fn hash_tags(s: Seq<char>) -> Seq<Seq<char>> {
    tags_from(s, 0)
}

/// Where the word that covers position `i` ends.
fn word_end_exec(c: &Vec<char>, i: usize) -> (r: usize)
    requires
        i < c@.len(),
    ensures
        r == word_end(c@, i as int),
        i <= r <= c@.len(),
{
    let mut j: usize = i;
    while j < c.len() && !is_space_exec(c[j])
        invariant
            i <= j <= c@.len(),
            word_end(c@, i as int) == word_end(c@, j as int),
        decreases c@.len() - j,
    {
        j += 1;
    }
    j
}

/// The tags in `input`: every whitespace-separated word that starts with
/// `#`, with its leading `#` marks removed.
pub fn parse_tags(input: &str) -> (r: Vec<String>)
    ensures
        r@.map_values(|t: String| t@) == hash_tags(input@),
{
    let c = chars_of(input);
    let n: usize = c.len();
    let mut r: Vec<String> = Vec::new();
    let mut i: usize = 0;
    while i < n
        invariant
            c@ == input@,
            n == c@.len(),
            i <= n,
            r@.map_values(|t: String| t@) + tags_from(c@, i as int) == hash_tags(c@),
        decreases n - i,
    {
        let ghost before = r@.map_values(|t: String| t@);
        let starts = !is_space_exec(c[i]) && (i == 0 || is_space_exec(c[i - 1]));
        if starts && c[i] == '#' {
            let j: usize = word_end_exec(&c, i);
            let mut k: usize = i;
            while k < j && c[k] == '#'
                invariant
                    i <= k <= j <= c@.len(),
                    strip_hashes(c@.subrange(i as int, j as int)) == strip_hashes(c@.subrange(k as int, j as int)),
                decreases j - k,
            {
                assert(c@.subrange(k as int, j as int).drop_first() =~= c@.subrange(k as int + 1, j as int));
                k += 1;
            }
            let tag = input.substring_char(k, j).to_string();
            proof {
                let w = c@.subrange(k as int, j as int);
                if w.len() > 0 {
                    assert(w[0] == c@[k as int]);
                }
                assert(tag@ == strip_hashes(c@.subrange(i as int, j as int)));
            }
            r.push(tag);
            proof {
                assert(r@.map_values(|t: String| t@) =~= before.push(tag@));
                assert(before.push(tag@) + tags_from(c@, i as int + 1) =~= before + (seq![tag@] + tags_from(c@, i as int + 1)));
            }
        }
        i += 1;
    }
    r
}

/// Words joined by single spaces.
pub open spec fn join_words(ws: Seq<Seq<char>>) -> Seq<char>
    decreases ws.len(),
{
    if ws.len() == 0 {
        Seq::empty()
    } else if ws.len() == 1 {
        ws[0]
    } else {
        join_words(ws.drop_last()) + seq![' '] + ws.last()
    }
}

/// `args[from..]` joined by single spaces.
fn join_from(args: &Vec<String>, from: usize) -> (r: String)
    requires
        from < args@.len(),
    ensures
        r@ == join_words(args@.map_values(|t: String| t@).subrange(from as int, args@.len() as int)),
{
    let ghost ws = args@.map_values(|t: String| t@);
    let mut out = args[from].clone();
    let n: usize = args.len();
    let mut i: usize = from + 1;
    proof {
        assert(ws.subrange(from as int, from as int + 1) =~= seq![ws[from as int]]);
    }
    while i < n
        invariant
            n == args@.len(),
            ws == args@.map_values(|t: String| t@),
            from < i <= args@.len(),
            out@ == join_words(ws.subrange(from as int, i as int)),
        decreases args@.len() - i,
    {
        proof {
            reveal_strlit(" ");
            assert(ws.subrange(from as int, i as int + 1).drop_last() =~= ws.subrange(from as int, i as int));
        }
        out.append(" ");
        out.append(args[i].as_str());
        i += 1;
    }
    out
}

/// What the arguments of a start command say: a duration in milliseconds,
/// if the first argument reads as one, and a description made of the
/// remaining arguments, if any.
pub open spec fn start_args_outcome(ws: Seq<Seq<char>>) -> (Option<u64>, Option<Seq<char>>) {
    if ws.len() == 0 {
        (None, None)
    } else {
        match duration_outcome(ws[0]) {
            Ok(d) => (Some(d), if ws.len() > 1 {
                Some(join_words(ws.subrange(1, ws.len() as int)))
            } else {
                None
            }),
            Err(_) => (None, Some(join_words(ws))),
        }
    }
}

/// Splits the arguments of a start command into an optional duration (the
/// first argument, where it reads as one) and an optional description (the
/// other arguments joined by spaces).
pub fn parse_start_args(args: Vec<String>) -> (r: (Option<u64>, Option<String>))
    ensures
        ({
            let (d, t) = start_args_outcome(args@.map_values(|s: String| s@));
            &&& r.0 == d
            &&& (r.1 is Some <==> t is Some)
            &&& (r.1 is Some ==> r.1->0@ == t->0)
        }),
{
    let ghost ws = args@.map_values(|s: String| s@);
    if args.len() == 0 {
        return (None, None);
    }
    match parse_duration(args[0].as_str()) {
        Ok(d) => {
            if args.len() > 1 {
                (Some(d), Some(join_from(&args, 1)))
            } else {
                (Some(d), None)
            }
        },
        Err(_) => {
            let t = join_from(&args, 0);
            assert(ws.subrange(0, args@.len() as int) =~= ws);
            (None, Some(t))
        },
    }
}

} // verus!
