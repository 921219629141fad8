use vstd::prelude::*;

verus! {

/// Unicode White_Space, the property that `char::is_whitespace` tests.
pub open spec fn is_ws(c: char) -> bool {
    let u = c as u32;
    (0x9 <= u && u <= 0xd) || u == 0x20 || u == 0x85 || u == 0xa0 || u == 0x1680 || (0x2000 <= u
        && u <= 0x200a) || u == 0x2028 || u == 0x2029 || u == 0x202f || u == 0x205f || u == 0x3000
}

pub fn is_whitespace(c: char) -> (r: bool)
    ensures
        r == is_ws(c),
{
    let u = c as u32;
    (0x9 <= u && u <= 0xd) || u == 0x20 || u == 0x85 || u == 0xa0 || u == 0x1680 || (0x2000 <= u
        && u <= 0x200a) || u == 0x2028 || u == 0x2029 || u == 0x202f || u == 0x205f || u == 0x3000
}

/// Number of leading whitespace characters.
pub open spec fn lead_ws(s: Seq<char>) -> nat
    decreases s.len(),
{
    if s.len() > 0 && is_ws(s[0]) {
        1 + lead_ws(s.drop_first())
    } else {
        0
    }
}

/// Number of trailing whitespace characters.
pub open spec fn trail_ws(s: Seq<char>) -> nat
    decreases s.len(),
{
    if s.len() > 0 && is_ws(s.last()) {
        1 + trail_ws(s.drop_last())
    } else {
        0
    }
}

pub open spec fn trim_start(s: Seq<char>) -> Seq<char> {
    s.subrange(lead_ws(s) as int, s.len() as int)
}

pub open spec fn trim_end(s: Seq<char>) -> Seq<char> {
    s.subrange(0, s.len() - trail_ws(s))
}

/// `str::trim`: both ends stripped of whitespace.
pub open spec fn trim(s: Seq<char>) -> Seq<char> {
    trim_end(trim_start(s))
}

pub proof fn lemma_lead_ws(s: Seq<char>)
    ensures
        lead_ws(s) <= s.len(),
        forall|i: int| 0 <= i < lead_ws(s) ==> is_ws(#[trigger] s[i]),
        lead_ws(s) < s.len() ==> !is_ws(s[lead_ws(s) as int]),
    decreases s.len(),
{
    if s.len() > 0 && is_ws(s[0]) {
        lemma_lead_ws(s.drop_first());
        assert forall|i: int| 0 <= i < lead_ws(s) implies is_ws(#[trigger] s[i]) by {
            if i > 0 {
                assert(s[i] == s.drop_first()[i - 1]);
            }
        }
        if lead_ws(s) < s.len() {
            assert(s[lead_ws(s) as int] == s.drop_first()[lead_ws(s.drop_first()) as int]);
        }
    }
}

pub proof fn lemma_trail_ws(s: Seq<char>)
    ensures
        trail_ws(s) <= s.len(),
        forall|i: int| s.len() - trail_ws(s) <= i < s.len() ==> is_ws(#[trigger] s[i]),
        trail_ws(s) < s.len() ==> !is_ws(s[s.len() - trail_ws(s) - 1]),
    decreases s.len(),
{
    if s.len() > 0 && is_ws(s.last()) {
        lemma_trail_ws(s.drop_last());
        assert forall|i: int| s.len() - trail_ws(s) <= i < s.len() implies is_ws(#[trigger] s[i]) by {
            if i < s.len() - 1 {
                assert(s[i] == s.drop_last()[i]);
            }
        }
        if trail_ws(s) < s.len() {
            assert(s[s.len() - trail_ws(s) - 1] == s.drop_last()[s.drop_last().len() - trail_ws(s.drop_last()) - 1]);
        }
    }
}

/// The characters of `cs` from `a` to `b`.
pub fn slice_chars(cs: &Vec<char>, a: usize, b: usize) -> (r: Vec<char>)
    requires
        a <= b <= cs@.len(),
    ensures
        r@ == cs@.subrange(a as int, b as int),
{
    let mut r: Vec<char> = Vec::new();
    let mut i = a;
    while i < b
        invariant
            a <= i <= b,
            b <= cs@.len(),
            r@ == cs@.subrange(a as int, i as int),
        decreases b - i,
    {
        r.push(cs[i]);
        assert(cs@.subrange(a as int, i + 1) =~= cs@.subrange(a as int, i as int).push(cs@[i as int]));
        i = i + 1;
    }
    r
}

/// Count of leading whitespace characters.
pub fn count_lead_ws(cs: &Vec<char>) -> (r: usize)
    ensures
        r == lead_ws(cs@),
{
    proof {
        lemma_lead_ws(cs@);
    }
    let mut i: usize = 0;
    assert(cs@.subrange(0, cs@.len() as int) =~= cs@);
    while i < cs.len() && is_whitespace(cs[i])
        invariant
            i <= cs@.len(),
            lead_ws(cs@) == i + lead_ws(cs@.subrange(i as int, cs@.len() as int)),
        decreases cs@.len() - i,
    {
        let ghost t = cs@.subrange(i as int, cs@.len() as int);
        assert(t.drop_first() =~= cs@.subrange(i + 1, cs@.len() as int));
        i = i + 1;
    }
    i
}

/// Count of trailing whitespace characters.
pub fn count_trail_ws(cs: &Vec<char>) -> (r: usize)
    ensures
        r == trail_ws(cs@),
{
    let mut n: usize = 0;
    assert(cs@.subrange(0, cs@.len() as int) =~= cs@);
    while n < cs.len() && is_whitespace(cs[cs.len() - 1 - n])
        invariant
            n <= cs@.len(),
            trail_ws(cs@) == n + trail_ws(cs@.subrange(0, cs@.len() - n)),
        decreases cs@.len() - n,
    {
        let ghost t = cs@.subrange(0, cs@.len() - n);
        assert(t.drop_last() =~= cs@.subrange(0, cs@.len() - n - 1));
        assert(t.last() == cs@[cs@.len() - 1 - n]);
        n = n + 1;
    }
    n
}

/// `cs` without leading whitespace.
pub fn trim_start_chars(cs: &Vec<char>) -> (r: Vec<char>)
    ensures
        r@ == trim_start(cs@),
{
    let k = count_lead_ws(cs);
    proof {
        lemma_lead_ws(cs@);
    }
    slice_chars(cs, k, cs.len())
}

/// `cs` without leading or trailing whitespace.
pub fn trim_chars(cs: &Vec<char>) -> (r: Vec<char>)
    ensures
        r@ == trim(cs@),
{
    let t = trim_start_chars(cs);
    let k = count_trail_ws(&t);
    proof {
        lemma_trail_ws(t@);
    }
    slice_chars(&t, 0, t.len() - k)
}

/// Whether `s` begins with the two characters `a`, `b`.
pub open spec fn starts2(s: Seq<char>, a: char, b: char) -> bool {
    s.len() >= 2 && s[0] == a && s[1] == b
}

/// Whether `s` begins with three copies of `a`.
pub open spec fn starts3(s: Seq<char>, a: char) -> bool {
    s.len() >= 3 && s[0] == a && s[1] == a && s[2] == a
}

pub fn starts_with2(cs: &Vec<char>, a: char, b: char) -> (r: bool)
    ensures
        r == starts2(cs@, a, b),
{
    cs.len() >= 2 && cs[0] == a && cs[1] == b
}

pub fn starts_with3(cs: &Vec<char>, a: char) -> (r: bool)
    ensures
        r == starts3(cs@, a),
{
    cs.len() >= 3 && cs[0] == a && cs[1] == a && cs[2] == a
}

/// Append a character to a string: `String::push`, which adds the
/// character at the end.
#[verifier::external_body]
pub(crate) fn push_char(s: &mut String, c: char)
    ensures
        final(s)@ == old(s)@.push(c),
{
    s.push(c);
}

/// A string holding exactly the given characters.
pub fn string_of(cs: &Vec<char>) -> (r: String)
    ensures
        r@ == cs@,
{
    let mut s = String::new();
    let mut i: usize = 0;
    while i < cs.len()
        invariant
            i <= cs@.len(),
            s@ == cs@.subrange(0, i as int),
        decreases cs@.len() - i,
    {
        push_char(&mut s, cs[i]);
        assert(cs@.subrange(0, i + 1) =~= cs@.subrange(0, i as int).push(cs@[i as int]));
        i = i + 1;
    }
    assert(cs@.subrange(0, i as int) =~= cs@);
    s
}

/// The characters of a string.
pub fn chars_of(s: &str) -> (r: Vec<char>)
    ensures
        r@ == s@,
{
    let n = s.unicode_len();
    let mut v: Vec<char> = Vec::new();
    let mut i: usize = 0;
    while i < n
        invariant
            n == s@.len(),
            i <= n,
            v@ == s@.subrange(0, i as int),
        decreases n - i,
    {
        v.push(s.get_char(i));
        assert(s@.subrange(0, i + 1) =~= s@.subrange(0, i as int).push(s@[i as int]));
        i = i + 1;
    }
    assert(s@.subrange(0, i as int) =~= s@);
    v
}

/// Lines joined by a separator.
pub open spec fn join(ls: Seq<Seq<char>>, sep: char) -> Seq<char>
    decreases ls.len(),
{
    if ls.len() == 0 {
        Seq::empty()
    } else if ls.len() == 1 {
        ls[0]
    } else {
        join(ls.drop_last(), sep).push(sep) + ls.last()
    }
}

/// Join lines with a separator.
pub fn join_chars(ls: &Vec<Vec<char>>, sep: char) -> (r: Vec<char>)
    ensures
        r@ == join(ls@.map_values(|l: Vec<char>| l@), sep),
{
    let ghost lv = ls@.map_values(|l: Vec<char>| l@);
    let mut r: Vec<char> = Vec::new();
    let mut i: usize = 0;
    while i < ls.len()
        invariant
            i <= ls@.len(),
            lv == ls@.map_values(|l: Vec<char>| l@),
            r@ == join(lv.subrange(0, i as int), sep),
        decreases ls@.len() - i,
    {
        let ghost before = r@;
        if i > 0 {
            r.push(sep);
        }
        let mut j: usize = 0;
        let ghost mid = r@;
        while j < ls[i].len()
            invariant
                i < ls@.len(),
                j <= ls@[i as int]@.len(),
                r@ == mid + ls@[i as int]@.subrange(0, j as int),
            decreases ls@[i as int]@.len() - j,
        {
            r.push(ls[i][j]);
            assert(ls@[i as int]@.subrange(0, j + 1) =~= ls@[i as int]@.subrange(0, j as int).push(ls@[i as int]@[j as int]));
            assert(mid + ls@[i as int]@.subrange(0, j + 1) =~= (mid + ls@[i as int]@.subrange(0, j as int)).push(ls@[i as int]@[j as int]));
            j = j + 1;
        }
        assert(ls@[i as int]@.subrange(0, j as int) =~= ls@[i as int]@);
        assert(lv.subrange(0, i + 1).drop_last() =~= lv.subrange(0, i as int));
        assert(lv[i as int] == ls@[i as int]@);
        if i == 0 {
            assert(before =~= Seq::<char>::empty());
            assert(r@ =~= ls@[0]@);
        }
        i = i + 1;
    }
    assert(lv.subrange(0, i as int) =~= lv);
    r
}

/// `str::lines`: split at `\n`; a `\r` before a `\n` is dropped; no empty
/// last line is produced by a final line ending.
pub open spec fn lines(s: Seq<char>) -> Seq<Seq<char>>
    decreases s.len(),
{
    match s.index_of_first('\n') {
        None => if s.len() == 0 { Seq::empty() } else { seq![s] },
        Some(i) => {
            proof {
                s.index_of_first_ensures('\n');
            }
            let l = s.subrange(0, i);
            let l2 = if l.len() > 0 && l.last() == '\r' { l.drop_last() } else { l };
            seq![l2] + lines(s.subrange(i + 1, s.len() as int))
        },
    }
}

/// Total of line lengths plus one per line.
pub open spec fn lines_size(ls: Seq<Seq<char>>) -> nat
    decreases ls.len(),
{
    if ls.len() == 0 {
        0
    } else {
        lines_size(ls.drop_last()) + ls.last().len() + 1
    }
}

pub proof fn lemma_lines_size_append(a: Seq<Seq<char>>, b: Seq<Seq<char>>)
    ensures
        lines_size(a + b) == lines_size(a) + lines_size(b),
    decreases b.len(),
{
    if b.len() == 0 {
        assert(a + b =~= a);
    } else {
        assert((a + b).drop_last() =~= a + b.drop_last());
        lemma_lines_size_append(a, b.drop_last());
    }
}

pub proof fn lemma_lines_size(s: Seq<char>)
    ensures
        lines_size(lines(s)) <= s.len() + 1,
    decreases s.len(),
{
    s.index_of_first_ensures('\n');
    match s.index_of_first('\n') {
        None => {
            if s.len() > 0 {
                assert(lines(s) == seq![s]);
                assert(seq![s].drop_last() =~= Seq::<Seq<char>>::empty());
                assert(lines_size(seq![s]) == lines_size(Seq::<Seq<char>>::empty()) + s.len() + 1);
            } else {
                assert(lines(s) == Seq::<Seq<char>>::empty());
            }
        },
        Some(i) => {
            let l = s.subrange(0, i);
            let l2 = if l.len() > 0 && l.last() == '\r' { l.drop_last() } else { l };
            let rest = lines(s.subrange(i + 1, s.len() as int));
            assert(lines(s) == seq![l2] + rest);
            lemma_lines_size(s.subrange(i + 1, s.len() as int));
            lemma_lines_size_append(seq![l2], rest);
            assert(seq![l2].drop_last() =~= Seq::<Seq<char>>::empty());
            assert(lines_size(seq![l2]) == lines_size(Seq::<Seq<char>>::empty()) + l2.len() + 1);
        },
    }
}

/// Split characters into lines as `str::lines` does.
pub fn split_lines(cs: &Vec<char>) -> (r: Vec<Vec<char>>)
    ensures
        r@.map_values(|l: Vec<char>| l@) == lines(cs@),
{
    let mut out: Vec<Vec<char>> = Vec::new();
    let mut start: usize = 0;
    let mut i: usize = 0;
    assert(cs@.subrange(0, cs@.len() as int) =~= cs@);
    assert(out@.map_values(|l: Vec<char>| l@) + lines(cs@) =~= lines(cs@));
    while i < cs.len()
        invariant
            start <= i <= cs@.len(),
            forall|k: int| start <= k < i ==> cs@[k] != '\n',
            out@.map_values(|l: Vec<char>| l@) + lines(cs@.subrange(start as int, cs@.len() as int))
                == lines(cs@),
        decreases cs@.len() - i,
    {
        if cs[i] == '\n' {
            let ghost rest = cs@.subrange(start as int, cs@.len() as int);
            proof {
                assert(rest[i - start] == '\n');
                rest.index_of_first_ensures('\n');
                assert forall|k: int| 0 <= k < i - start implies rest[k] != '\n' by {
                    assert(rest[k] == cs@[start + k]);
                }
                assert(rest.index_of_first('\n') == Some(i - start));
                assert(rest.subrange(0, i - start) =~= cs@.subrange(start as int, i as int));
                assert(rest.subrange(i - start + 1, rest.len() as int) =~= cs@.subrange(i + 1, cs@.len() as int));
            }
            let mut end = i;
            if end > start && cs[end - 1] == '\r' {
                end = end - 1;
            }
            let line = slice_chars(cs, start, end);
            let ghost before = out@.map_values(|l: Vec<char>| l@);
            out.push(line);
            proof {
                let l = cs@.subrange(start as int, i as int);
                if i > start && cs@[i - 1] == '\r' {
                    assert(l.drop_last() =~= cs@.subrange(start as int, i - 1));
                }
                assert(out@.map_values(|l: Vec<char>| l@) =~= before.push(line@));
                assert(before.push(line@) + lines(cs@.subrange(i + 1, cs@.len() as int)) =~= before + (seq![line@] + lines(cs@.subrange(i + 1, cs@.len() as int))));
            }
            start = i + 1;
        }
        i = i + 1;
    }
    let ghost rest = cs@.subrange(start as int, cs@.len() as int);
    proof {
        rest.index_of_first_ensures('\n');
        assert forall|k: int| 0 <= k < rest.len() implies rest[k] != '\n' by {
            assert(rest[k] == cs@[start + k]);
        }
    }
    if start < cs.len() {
        let line = slice_chars(cs, start, cs.len());
        let ghost before = out@.map_values(|l: Vec<char>| l@);
        out.push(line);
        assert(out@.map_values(|l: Vec<char>| l@) =~= before + seq![rest]);
    } else {
        assert(rest.len() == 0);
        assert(out@.map_values(|l: Vec<char>| l@) =~= out@.map_values(|l: Vec<char>| l@) + Seq::<Seq<char>>::empty());
    }
    out
}

/// The character of a decimal digit.
pub open spec fn digit_char(d: nat) -> char {
    if d == 0 {
        '0'
    } else if d == 1 {
        '1'
    } else if d == 2 {
        '2'
    } else if d == 3 {
        '3'
    } else if d == 4 {
        '4'
    } else if d == 5 {
        '5'
    } else if d == 6 {
        '6'
    } else if d == 7 {
        '7'
    } else if d == 8 {
        '8'
    } else {
        '9'
    }
}

/// The decimal text of a number.
pub open spec fn dec(n: nat) -> Seq<char>
    decreases n,
{
    if n < 10 {
        seq![digit_char(n)]
    } else {
        dec(n / 10).push(digit_char(n % 10))
    }
}

fn digit(d: u32) -> (r: char)
    requires
        d < 10,
    ensures
        r == digit_char(d as nat),
{
    match d {
        0 => '0',
        1 => '1',
        2 => '2',
        3 => '3',
        4 => '4',
        5 => '5',
        6 => '6',
        7 => '7',
        8 => '8',
        _ => '9',
    }
}

/// The decimal text of a number.
pub fn dec_string(n: u32) -> (r: String)
    ensures
        r@ == dec(n as nat),
    decreases n,
{
    if n < 10 {
        let mut s = String::new();
        push_char(&mut s, digit(n));
        assert(s@ =~= seq![digit_char(n as nat)]);
        s
    } else {
        let mut s = dec_string(n / 10);
        push_char(&mut s, digit(n % 10));
        s
    }
}

/// The digits of a fraction of thousandths `f` (below 1000) after the
/// decimal point, without trailing zeros.
pub open spec fn thousandths_text(f: nat) -> Seq<char> {
    if f % 100 == 0 {
        seq![digit_char(f / 100)]
    } else if f % 10 == 0 {
        seq![digit_char(f / 100), digit_char((f / 10) % 10)]
    } else {
        seq![digit_char(f / 100), digit_char((f / 10) % 10), digit_char(f % 10)]
    }
}

/// A quantity in thousandths as a decimal number with no trailing zeros:
/// `50` is `0.05`, `1000` is `1`.
pub open spec fn ratio_text(r: nat) -> Seq<char> {
    if r % 1000 == 0 {
        dec(r / 1000)
    } else {
        dec(r / 1000) + seq!['.'] + thousandths_text(r % 1000)
    }
}

/// A quantity in thousandths as a decimal number with no trailing zeros.
pub fn ratio_string(r: u32) -> (s: String)
    ensures
        s@ == ratio_text(r as nat),
{
    let mut s = dec_string(r / 1000);
    let f = r % 1000;
    if f == 0 {
        return s;
    }
    push_char(&mut s, '.');
    push_char(&mut s, digit(f / 100));
    if f % 100 != 0 {
        push_char(&mut s, digit((f / 10) % 10));
        if f % 10 != 0 {
            push_char(&mut s, digit(f % 10));
        }
    }
    assert(s@ =~= ratio_text(r as nat));
    s
}

} // verus!
