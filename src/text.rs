//! Operations on text that the engine's rules are stated with.

use vstd::prelude::*;

verus! {

/// Whether two strings hold the same characters.
pub fn same_str(a: &str, b: &str) -> (r: bool)
    ensures
        r == (a@ == b@),
{
    let x = a.to_owned();
    let y = b.to_owned();
    x == y
}

/// Whether `p` is a prefix of `s`.
pub open spec fn is_prefix(p: Seq<char>, s: Seq<char>) -> bool {
    p.len() <= s.len() && s.take(p.len() as int) == p
}

/// Whether `s` starts with `p`.
pub fn starts_with(s: &str, p: &str) -> (r: bool)
    ensures
        r == is_prefix(p@, s@),
{
    let n = p.unicode_len();
    if n > s.unicode_len() {
        return false;
    }
    let mut i: usize = 0;
    while i < n
        invariant
            n == p@.len(),
            n <= s@.len(),
            i <= n,
            s@.take(i as int) == p@.take(i as int),
        decreases n - i,
    {
        if s.get_char(i) != p.get_char(i) {
            assert(s@.take(n as int)[i as int] != p@[i as int]);
            return false;
        }
        assert(s@.take(i + 1) =~= s@.take(i as int).push(s@[i as int]));
        assert(p@.take(i + 1) =~= p@.take(i as int).push(p@[i as int]));
        i = i + 1;
    }
    assert(p@.take(n as int) =~= p@);
    true
}

/// The position of the first `c` in `s`, if any.
pub open spec fn index_of(s: Seq<char>, c: char) -> Option<nat>
    decreases s.len(),
{
    if s.len() == 0 {
        None
    } else if s[0] == c {
        Some(0)
    } else {
        match index_of(s.drop_first(), c) {
            Some(i) => Some(i + 1),
            None => None,
        }
    }
}

proof fn lemma_index_of(s: Seq<char>, c: char, n: int)
    requires
        0 <= n <= s.len(),
        forall|j: int| 0 <= j < n ==> s[j] != c,
    ensures
        n == s.len() ==> index_of(s, c) == None::<nat>,
        n < s.len() && s[n] == c ==> index_of(s, c) == Some(n as nat),
    decreases n,
{
    if n > 0 {
        lemma_index_of(s.drop_first(), c, n - 1);
    }
}

/// The position of the first `c` in `s`, if any.
pub fn find_char(s: &str, c: char) -> (r: Option<usize>)
    ensures
        match r {
            Some(i) => index_of(s@, c) == Some(i as nat),
            None => index_of(s@, c) == None::<nat>,
        },
        r.is_some() ==> r.unwrap() < s@.len(),
{
    let n = s.unicode_len();
    let mut i: usize = 0;
    while i < n
        invariant
            n == s@.len(),
            i <= n,
            forall|j: int| 0 <= j < i ==> s@[j] != c,
        decreases n - i,
    {
        if s.get_char(i) == c {
            proof {
                lemma_index_of(s@, c, i as int);
            }
            return Some(i);
        }
        i = i + 1;
    }
    proof {
        lemma_index_of(s@, c, i as int);
    }
    None
}

/// What stands before the first `c` in `s`; all of `s` where there is none.
pub open spec fn before_char(s: Seq<char>, c: char) -> Seq<char> {
    match index_of(s, c) {
        Some(i) => s.take(i as int),
        None => s,
    }
}

/// What stands before the first `c` in `s`; all of `s` where there is none.
pub fn cut_at_char(s: &str, c: char) -> (r: String)
    ensures
        r@ == before_char(s@, c),
{
    match find_char(s, c) {
        Some(i) => s.substring_char(0, i).to_owned(),
        None => s.to_owned(),
    }
}

/// The concatenation of two strings.
pub fn concat(a: &str, b: &str) -> (r: String)
    ensures
        r@ == a@ + b@,
{
    let mut r = a.to_owned();
    r.append(b);
    r
}

/// The lines of a text, as `str::lines` gives them: split at `\n`, one `\r`
/// before a `\n` dropped, and no empty last line after a final `\n`.
pub open spec fn lines_of(s: Seq<char>) -> Seq<Seq<char>> {
    let p = pieces(s);
    p.drop_last().map_values(|l: Seq<char>| strip_cr(l)) + if p.last().len() > 0 {
        seq![p.last()]
    } else {
        Seq::empty()
    }
}

/// A text split at every `\n`; never empty.
pub open spec fn pieces(s: Seq<char>) -> Seq<Seq<char>>
    decreases s.len(),
{
    if s.len() == 0 {
        seq![Seq::empty()]
    } else {
        let p = pieces(s.drop_last());
        if s.last() == '\n' {
            p.push(Seq::empty())
        } else {
            p.update(p.len() - 1, p.last().push(s.last()))
        }
    }
}

/// A line without one trailing `\r`.
pub open spec fn strip_cr(l: Seq<char>) -> Seq<char> {
    if l.len() > 0 && l.last() == '\r' {
        l.drop_last()
    } else {
        l
    }
}

proof fn lemma_pieces_nonempty(s: Seq<char>)
    ensures
        pieces(s).len() >= 1,
    decreases s.len(),
{
    if s.len() > 0 {
        lemma_pieces_nonempty(s.drop_last());
    }
}

fn strip_cr_exec(l: &str) -> (r: String)
    ensures
        r@ == strip_cr(l@),
{
    let n = l.unicode_len();
    if n > 0 && l.get_char(n - 1) == '\r' {
        l.substring_char(0, n - 1).to_owned()
    } else {
        l.to_owned()
    }
}

/// The lines of a text, as `str::lines` gives them.
pub fn split_lines(s: &str) -> (r: Vec<String>)
    ensures
        r@.map_values(|x: String| x@) == lines_of(s@),
{
    let n = s.unicode_len();
    let mut done: Vec<String> = Vec::new();
    let mut start: usize = 0;
    let mut i: usize = 0;
    while i < n
        invariant
            n == s@.len(),
            start <= i <= n,
            done@.map_values(|x: String| x@).push(s@.subrange(start as int, i as int)) == pieces(
                s@.take(i as int),
            ).drop_last().map_values(|l: Seq<char>| strip_cr(l)).push(
                s@.subrange(start as int, i as int),
            ),
            pieces(s@.take(i as int)).last() == s@.subrange(start as int, i as int),
            pieces(s@.take(i as int)).len() == done@.len() + 1,
        decreases n - i,
    {
        proof {
            assert(s@.take(i + 1).drop_last() =~= s@.take(i as int));
            lemma_pieces_nonempty(s@.take(i as int));
        }
        let ghost before = done@;
        if s.get_char(i) == '\n' {
            let l = strip_cr_exec(s.substring_char(start, i));
            done.push(l);
            proof {
                let p = pieces(s@.take(i as int));
                assert(pieces(s@.take(i + 1)) == p.push(Seq::<char>::empty()));
                assert(p.push(Seq::<char>::empty()).drop_last() =~= p);
                assert(done@.map_values(|x: String| x@) =~= before.map_values(|x: String| x@).push(
                    strip_cr(p.last()),
                ));
                let dv = before.map_values(|x: String| x@);
                let pm = p.drop_last().map_values(|l: Seq<char>| strip_cr(l));
                let sub = s@.subrange(start as int, i as int);
                assert(dv.push(sub).drop_last() =~= dv);
                assert(pm.push(sub).drop_last() =~= pm);
                assert(pm =~= dv);
                assert(p.map_values(|l: Seq<char>| strip_cr(l)) =~= p.drop_last().map_values(
                    |l: Seq<char>| strip_cr(l),
                ).push(strip_cr(p.last())));
                assert(s@.subrange(i + 1, i + 1) =~= Seq::<char>::empty());
            }
            start = i + 1;
        } else {
            proof {
                let p = pieces(s@.take(i as int));
                let q = pieces(s@.take(i + 1));
                assert(q == p.update(p.len() - 1, p.last().push(s@[i as int])));
                assert(q.drop_last() =~= p.drop_last());
                assert(s@.subrange(start as int, i + 1) =~= s@.subrange(start as int, i as int).push(
                    s@[i as int],
                ));
                let dv = done@.map_values(|x: String| x@);
                assert(dv =~= dv.push(s@.subrange(start as int, i as int)).drop_last());
                assert(p.drop_last().map_values(|l: Seq<char>| strip_cr(l)) =~= dv.push(
                    s@.subrange(start as int, i as int),
                ).drop_last());
            }
        }
        i = i + 1;
    }
    proof {
        assert(s@.take(n as int) =~= s@);
        let dv = done@.map_values(|x: String| x@);
        let p = pieces(s@);
        assert(dv =~= dv.push(s@.subrange(start as int, n as int)).drop_last());
        assert(p.drop_last().map_values(|l: Seq<char>| strip_cr(l)) =~= dv);
    }
    if start < n {
        let last = s.substring_char(start, n).to_owned();
        done.push(last);
        assert(done@.map_values(|x: String| x@) =~= lines_of(s@));
    } else {
        assert(s@.subrange(start as int, n as int) =~= Seq::<char>::empty());
        assert(done@.map_values(|x: String| x@) =~= lines_of(s@));
    }
    done
}

/// Whether every character of `d` is a decimal digit.
pub open spec fn all_digits(d: Seq<char>) -> bool {
    forall|i: int| 0 <= i < d.len() ==> '0' <= #[trigger] d[i] <= '9'
}

/// The number that a string of decimal digits writes.
pub open spec fn digits_value(d: Seq<char>) -> int
    decreases d.len(),
{
    if d.len() == 0 {
        0
    } else {
        digits_value(d.drop_last()) * 10 + (d.last() as int - '0' as int)
    }
}

/// The digits of an unsigned number: a leading `+` is allowed.
pub open spec fn unsigned_digits(s: Seq<char>) -> Seq<char> {
    if s.len() > 0 && s[0] == '+' {
        s.drop_first()
    } else {
        s
    }
}

/// What `u16::from_str` gives: a non-empty run of digits after an optional
/// `+`, whose value fits.
pub open spec fn parse_u16_spec(s: Seq<char>) -> Option<u16> {
    let d = unsigned_digits(s);
    if d.len() > 0 && all_digits(d) && digits_value(d) <= 65535 {
        Some(digits_value(d) as u16)
    } else {
        None
    }
}

proof fn lemma_digits_nonneg(d: Seq<char>)
    requires
        all_digits(d),
    ensures
        digits_value(d) >= 0,
    decreases d.len(),
{
    if d.len() > 0 {
        assert(all_digits(d.drop_last())) by {
            assert forall|i: int| 0 <= i < d.drop_last().len() implies '0' <= #[trigger] d.drop_last()[i]
                <= '9' by {
                assert(d.drop_last()[i] == d[i]);
            }
        }
        lemma_digits_nonneg(d.drop_last());
        assert('0' <= d[d.len() - 1] <= '9');
    }
}

/// Reads a decimal `u16` as `u16::from_str` does.
pub fn parse_u16(s: &str) -> (r: Option<u16>)
    ensures
        r == parse_u16_spec(s@),
{
    let n = s.unicode_len();
    let mut i: usize = 0;
    if n > 0 && s.get_char(0) == '+' {
        i = 1;
    }
    let ghost d = unsigned_digits(s@);
    assert(d =~= s@.subrange(i as int, n as int));
    if i == n {
        return None;
    }
    let first = i;
    let mut v: u32 = 0;
    while i < n
        invariant
            n == s@.len(),
            first <= i <= n,
            d == s@.subrange(first as int, n as int),
            d == unsigned_digits(s@),
            d.len() > 0,
            all_digits(d.take(i - first)),
            v as int == if digits_value(d.take(i - first)) > 65536 {
                65536
            } else {
                digits_value(d.take(i - first))
            },
        decreases n - i,
    {
        let c = s.get_char(i);
        let ghost k = i - first;
        let ghost t = d.take(k + 1);
        assert(t.drop_last() =~= d.take(k));
        assert(t.last() == c);
        if c < '0' || c > '9' {
            assert(!all_digits(d)) by {
                assert(d[k] == c);
                assert(!('0' <= d[k] <= '9'));
            }
            return None;
        }
        assert(all_digits(t)) by {
            assert forall|j: int| 0 <= j < t.len() implies '0' <= #[trigger] t[j] <= '9' by {
                if j < k {
                    assert(t[j] == d.take(k)[j]);
                }
            }
        }
        proof {
            lemma_digits_nonneg(d.take(k));
        }
        let dig: u32 = (c as u32) - ('0' as u32);
        let ghost prev = digits_value(d.take(k));
        assert(digits_value(t) == prev * 10 + dig);
        if v >= 65536 {
            assert(prev * 10 + dig > 65536) by (nonlinear_arith)
                requires
                    prev >= 65536,
                    dig >= 0,
            ;
            v = 65536;
        } else {
            v = v * 10 + dig;
            if v > 65536 {
                v = 65536;
            }
        }
        i = i + 1;
    }
    assert(d.take(i - first) =~= d);
    if v > 65535 {
        None
    } else {
        Some(v as u16)
    }
}

/// A list of names joined into one path as `PathBuf` does it: a separator
/// goes between two names unless the path so far is empty or already ends in
/// one, and a name that starts with a separator replaces the path so far.
pub open spec fn path_join(segs: Seq<Seq<char>>) -> Seq<char>
    decreases segs.len(),
{
    if segs.len() == 0 {
        Seq::empty()
    } else {
        let b = path_join(segs.drop_last());
        let s = segs.last();
        if s.len() > 0 && s[0] == '/' {
            s
        } else if b.len() > 0 && b.last() != '/' {
            b.push('/') + s
        } else {
            b + s
        }
    }
}

/// Joins names into one path as `PathBuf` does it.
pub fn join_path(segs: &Vec<String>) -> (r: String)
    ensures
        r@ == path_join(segs@.map_values(|x: String| x@)),
{
    let ghost sv = segs@.map_values(|x: String| x@);
    let mut r = String::new();
    let mut i: usize = 0;
    while i < segs.len()
        invariant
            i <= segs.len(),
            sv == segs@.map_values(|x: String| x@),
            r@ == path_join(sv.take(i as int)),
        decreases segs.len() - i,
    {
        let s = segs[i].as_str();
        assert(sv.take(i + 1).drop_last() =~= sv.take(i as int));
        assert(sv.take(i + 1).last() == s@);
        let n = s.unicode_len();
        let m = r.as_str().unicode_len();
        if n > 0 && s.get_char(0) == '/' {
            r = s.to_owned();
        } else if m > 0 && r.as_str().get_char(m - 1) != '/' {
            proof {
                reveal_strlit("/");
            }
            r.append("/");
            r.append(s);
        } else {
            r.append(s);
        }
        i = i + 1;
    }
    assert(sv.take(i as int) =~= sv);
    r
}

/// The decimal digit of a number below 10.
pub open spec fn digit_char(d: nat) -> char {
    if d == 0 { '0' } else if d == 1 { '1' } else if d == 2 { '2' } else if d == 3 { '3' }
    else if d == 4 { '4' } else if d == 5 { '5' } else if d == 6 { '6' } else if d == 7 { '7' }
    else if d == 8 { '8' } else { '9' }
}

/// A number written in decimal, without leading zeros.
pub open spec fn decimal(n: nat) -> Seq<char>
    decreases n,
{
    if n < 10 {
        seq![digit_char(n)]
    } else {
        decimal(n / 10).push(digit_char(n % 10))
    }
}

fn digit_str(d: u16) -> (r: &'static str)
    requires
        d < 10,
    ensures
        r@ == seq![digit_char(d as nat)],
{
    proof {
        reveal_strlit("0");
        reveal_strlit("1");
        reveal_strlit("2");
        reveal_strlit("3");
        reveal_strlit("4");
        reveal_strlit("5");
        reveal_strlit("6");
        reveal_strlit("7");
        reveal_strlit("8");
        reveal_strlit("9");
    }
    let r = if d == 0 { "0" } else if d == 1 { "1" } else if d == 2 { "2" } else if d == 3 { "3" }
    else if d == 4 { "4" } else if d == 5 { "5" } else if d == 6 { "6" } else if d == 7 { "7" }
    else if d == 8 { "8" } else { "9" };
    assert(r@ =~= seq![digit_char(d as nat)]);
    r
}

/// A number written in decimal.
pub fn decimal_string(n: u16) -> (r: String)
    ensures
        r@ == decimal(n as nat),
    decreases n,
{
    if n < 10 {
        String::from_str(digit_str(n))
    } else {
        let mut r = decimal_string(n / 10);
        r.append(digit_str(n % 10));
        assert(r@ =~= decimal(n as nat));
        r
    }
}

} // verus!
