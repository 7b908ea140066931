use vstd::prelude::*;

verus! {

/// The decimal digits of `n`, most significant first, without leading zeros.
pub open spec fn decimal(n: nat) -> Seq<char>
    decreases n,
{
    if n < 10 {
        seq![digit_char(n)]
    } else {
        decimal(n / 10).push(digit_char(n % 10))
    }
}

pub open spec fn digit_char(d: nat) -> char {
    if d == 0 {
        '0'
    } else if d == 1 {
        '1'
    } else if d == 2 {
        '2'
    } else if d == 3 {
        '3'
    } else if d == 4 {
        '4'
    } else if d == 5 {
        '5'
    } else if d == 6 {
        '6'
    } else if d == 7 {
        '7'
    } else if d == 8 {
        '8'
    } else {
        '9'
    }
}

/// An integer in decimal, with a leading minus sign when it is negative.
pub open spec fn signed_decimal(n: int) -> Seq<char> {
    if n < 0 {
        seq!['-'] + decimal((-n) as nat)
    } else {
        decimal(n as nat)
    }
}

/// Splits `s` at every `sep`; `k` separators give `k + 1` pieces, empty ones included.
pub open spec fn split_on(s: Seq<char>, sep: char) -> Seq<Seq<char>>
    decreases s.len(),
{
    if s.len() == 0 {
        seq![Seq::empty()]
    } else {
        let pieces = split_on(s.drop_last(), sep);
        if s.last() == sep {
            pieces.push(Seq::empty())
        } else {
            pieces.update(pieces.len() - 1, pieces.last().push(s.last()))
        }
    }
}

/// The pieces that are not empty, in their order.
pub open spec fn non_empty(pieces: Seq<Seq<char>>) -> Seq<Seq<char>>
    decreases pieces.len(),
{
    if pieces.len() == 0 {
        Seq::empty()
    } else if pieces.last().len() > 0 {
        non_empty(pieces.drop_last()).push(pieces.last())
    } else {
        non_empty(pieces.drop_last())
    }
}

/// The pieces, each followed by `sep` but the last.
pub open spec fn join(pieces: Seq<Seq<char>>, sep: char) -> Seq<char>
    decreases pieces.len(),
{
    if pieces.len() == 0 {
        Seq::empty()
    } else if pieces.len() == 1 {
        pieces[0]
    } else {
        join(pieces.drop_last(), sep).push(sep) + pieces.last()
    }
}

/// Whether `c` is trimmed: a dot where `dots` holds, otherwise whitespace.
pub open spec fn trimmed_char(c: char, dots: bool) -> bool {
    if dots {
        c == '.'
    } else {
        is_white(c)
    }
}

/// `s` without the trimmed characters at its front.
pub open spec fn strip_front(s: Seq<char>, dots: bool) -> Seq<char>
    decreases s.len(),
{
    if s.len() > 0 && trimmed_char(s[0], dots) {
        strip_front(s.drop_first(), dots)
    } else {
        s
    }
}

/// `s` without the trimmed characters at its back.
pub open spec fn strip_back(s: Seq<char>, dots: bool) -> Seq<char>
    decreases s.len(),
{
    if s.len() > 0 && trimmed_char(s.last(), dots) {
        strip_back(s.drop_last(), dots)
    } else {
        s
    }
}

/// `s` without the trimmed characters at either end.
pub open spec fn strip(s: Seq<char>, dots: bool) -> Seq<char> {
    strip_back(strip_front(s, dots), dots)
}

/// Unicode's White_Space property, the one `char::is_whitespace` reports.
pub open spec fn is_white(c: char) -> bool {
    let u = c as u32;
    u == 0x20 || (0x09 <= u && u <= 0x0d) || u == 0x85 || u == 0xa0 || u == 0x1680 || (0x2000
        <= u && u <= 0x200a) || u == 0x2028 || u == 0x2029 || u == 0x202f || u == 0x205f || u
        == 0x3000
}

pub fn is_white_char(c: char) -> (r: bool)
    ensures
        r == is_white(c),
{
    let u = c as u32;
    u == 0x20 || (0x09 <= u && u <= 0x0d) || u == 0x85 || u == 0xa0 || u == 0x1680 || (0x2000
        <= u && u <= 0x200a) || u == 0x2028 || u == 0x2029 || u == 0x202f || u == 0x205f || u
        == 0x3000
}

fn digit_text(d: u128) -> (r: String)
    requires
        d < 10,
    ensures
        r@ == seq![digit_char(d as nat)],
{
    let s = if d == 0 {
        proof { reveal_strlit("0"); }
        "0"
    } else if d == 1 {
        proof { reveal_strlit("1"); }
        "1"
    } else if d == 2 {
        proof { reveal_strlit("2"); }
        "2"
    } else if d == 3 {
        proof { reveal_strlit("3"); }
        "3"
    } else if d == 4 {
        proof { reveal_strlit("4"); }
        "4"
    } else if d == 5 {
        proof { reveal_strlit("5"); }
        "5"
    } else if d == 6 {
        proof { reveal_strlit("6"); }
        "6"
    } else if d == 7 {
        proof { reveal_strlit("7"); }
        "7"
    } else if d == 8 {
        proof { reveal_strlit("8"); }
        "8"
    } else {
        proof { reveal_strlit("9"); }
        "9"
    };
    let r = String::from_str(s);
    assert(r@ =~= seq![digit_char(d as nat)]);
    r
}

/// Writes `n` in decimal.
pub fn decimal_text(n: u128) -> (r: String)
    ensures
        r@ == decimal(n as nat),
    decreases n,
{
    if n < 10 {
        digit_text(n)
    } else {
        let mut r = decimal_text(n / 10);
        let d = digit_text(n % 10);
        r.append(d.as_str());
        r
    }
}

/// Writes `n` in decimal, with a minus sign when it is negative.
pub fn signed_decimal_text(n: i32) -> (r: String)
    ensures
        r@ == signed_decimal(n as int),
{
    if n < 0 {
        let magnitude: u128 = (0i64 - n as i64) as u128;
        let mut r = String::from_str("-");
        proof { reveal_strlit("-"); }
        let digits = decimal_text(magnitude);
        r.append(digits.as_str());
        r
    } else {
        decimal_text(n as u128)
    }
}

/// The pieces of `s` between the separators `sep`, with the empty ones left out.
pub fn split_non_empty(s: &str, sep: char) -> (r: Vec<String>)
    ensures
        r.deep_view() == non_empty(split_on(s@, sep)),
{
    let n = s.unicode_len();
    let mut r: Vec<String> = Vec::new();
    let mut start: usize = 0;
    let mut i: usize = 0;
    let ghost mut done: Seq<Seq<char>> = Seq::empty();
    assert(s@.subrange(0, 0) =~= Seq::<char>::empty());
    assert(done.push(s@.subrange(0, 0)) =~= seq![Seq::<char>::empty()]);
    while i < n
        invariant
            n == s@.len(),
            start <= i <= n,
            split_on(s@.subrange(0, i as int), sep) == done.push(s@.subrange(start as int, i as int)),
            r.deep_view() == non_empty(done),
        decreases n - i,
    {
        let c = s.get_char(i);
        let ghost prefix = s@.subrange(0, i + 1);
        proof {
            assert(prefix.drop_last() =~= s@.subrange(0, i as int));
            assert(prefix.last() == c);
        }
        if c == sep {
            let piece = s.substring_char(start, i);
            proof {
                let old_done = done;
                done = done.push(s@.subrange(start as int, i as int));
                assert(done.drop_last() =~= old_done);
                assert(split_on(prefix, sep) == split_on(prefix.drop_last(), sep).push(
                    Seq::empty(),
                ));
                assert(s@.subrange(i + 1, i + 1) =~= Seq::<char>::empty());
            }
            if piece.unicode_len() > 0 {
                let ghost before = r.deep_view();
                r.push(String::from_str(piece));
                assert(r.deep_view() =~= before.push(piece@));
            }
            start = i + 1;
        } else {
            proof {
                let prev = s@.subrange(start as int, i as int);
                let pieces = split_on(prefix.drop_last(), sep);
                assert(prev.push(c) =~= s@.subrange(start as int, i + 1));
                assert(pieces.len() == done.len() + 1);
                assert(split_on(prefix, sep) == pieces.update(
                    pieces.len() - 1,
                    pieces.last().push(c),
                ));
                assert(split_on(prefix, sep) =~= done.push(s@.subrange(start as int, i + 1)));
            }
        }
        i = i + 1;
    }
    assert(s@.subrange(0, n as int) =~= s@);
    let piece = s.substring_char(start, n);
    let ghost all = done.push(piece@);
    assert(all.drop_last() =~= done);
    if piece.unicode_len() > 0 {
        let ghost before = r.deep_view();
        r.push(String::from_str(piece));
        assert(r.deep_view() =~= before.push(piece@));
    }
    r
}

/// The pieces, each followed by `sep` but the last.
pub fn join_with(pieces: &Vec<String>, sep: &str) -> (r: String)
    requires
        sep@.len() == 1,
    ensures
        r@ == join(pieces.deep_view(), sep@[0]),
{
    let mut r = String::new();
    let mut i: usize = 0;
    while i < pieces.len()
        invariant
            i <= pieces.len(),
            sep@.len() == 1,
            r@ == join(pieces.deep_view().subrange(0, i as int), sep@[0]),
        decreases pieces.len() - i,
    {
        let ghost before = r@;
        if i > 0 {
            r.append(sep);
        }
        r.append(pieces[i].as_str());
        proof {
            let v = pieces.deep_view();
            let next = v.subrange(0, i + 1);
            assert(next.drop_last() =~= v.subrange(0, i as int));
            if i == 0 {
                assert(r@ =~= next[0]);
            } else {
                assert(sep@ =~= seq![sep@[0]]);
                assert(r@ =~= join(next.drop_last(), sep@[0]).push(sep@[0]) + next.last());
            }
        }
        i = i + 1;
    }
    assert(pieces.deep_view().subrange(0, pieces.len() as int) =~= pieces.deep_view());
    r
}

fn is_trimmed(c: char, dots: bool) -> (r: bool)
    ensures
        r == trimmed_char(c, dots),
{
    if dots {
        c == '.'
    } else {
        is_white_char(c)
    }
}

/// `s` without the trimmed characters at either end: dots where `dots` holds,
/// otherwise whitespace.
pub fn trim_text(s: &str, dots: bool) -> (r: String)
    ensures
        r@ == strip(s@, dots),
{
    let n = s.unicode_len();
    let mut lo: usize = 0;
    assert(s@.subrange(0, n as int) =~= s@);
    while lo < n && is_trimmed(s.get_char(lo), dots)
        invariant
            n == s@.len(),
            lo <= n,
            strip_front(s@.subrange(lo as int, n as int), dots) == strip_front(s@, dots),
        decreases n - lo,
    {
        let ghost rest = s@.subrange(lo as int, n as int);
        assert(rest.drop_first() =~= s@.subrange(lo + 1, n as int));
        assert(rest[0] == s@[lo as int]);
        lo = lo + 1;
    }
    proof {
        let rest = s@.subrange(lo as int, n as int);
        if lo < n {
            assert(rest[0] == s@[lo as int]);
        }
        assert(strip_front(rest, dots) == rest);
    }
    let mut hi: usize = n;
    while hi > lo && is_trimmed(s.get_char(hi - 1), dots)
        invariant
            n == s@.len(),
            lo <= hi <= n,
            strip_front(s@, dots) == s@.subrange(lo as int, n as int),
            strip_back(s@.subrange(lo as int, hi as int), dots) == strip(s@, dots),
        decreases hi - lo,
    {
        let ghost rest = s@.subrange(lo as int, hi as int);
        assert(rest.drop_last() =~= s@.subrange(lo as int, hi - 1));
        assert(rest.last() == s@[hi - 1]);
        hi = hi - 1;
    }
    proof {
        let rest = s@.subrange(lo as int, hi as int);
        if hi > lo {
            assert(rest.last() == s@[hi - 1]);
        }
        assert(strip_back(rest, dots) == rest);
    }
    String::from_str(s.substring_char(lo, hi))
}

/// `s` without the trimmed characters at its back: dots where `dots` holds,
/// otherwise whitespace.
pub fn trim_back(s: &str, dots: bool) -> (r: String)
    ensures
        r@ == strip_back(s@, dots),
{
    let n = s.unicode_len();
    let mut hi: usize = n;
    assert(s@.subrange(0, n as int) =~= s@);
    while hi > 0 && is_trimmed(s.get_char(hi - 1), dots)
        invariant
            n == s@.len(),
            hi <= n,
            strip_back(s@.subrange(0, hi as int), dots) == strip_back(s@, dots),
        decreases hi,
    {
        let ghost rest = s@.subrange(0, hi as int);
        assert(rest.drop_last() =~= s@.subrange(0, hi - 1));
        assert(rest.last() == s@[hi - 1]);
        hi = hi - 1;
    }
    proof {
        let rest = s@.subrange(0, hi as int);
        if hi > 0 {
            assert(rest.last() == s@[hi - 1]);
        }
        assert(strip_back(rest, dots) == rest);
    }
    String::from_str(s.substring_char(0, hi))
}

/// Whether `s` holds the character `c`.
pub fn has_char(s: &str, c: char) -> (r: bool)
    ensures
        r <==> exists|j: int| 0 <= j < s@.len() && s@[j] == c,
{
    let n = s.unicode_len();
    let mut i: usize = 0;
    while i < n
        invariant
            n == s@.len(),
            i <= n,
            forall|j: int| 0 <= j < i ==> s@[j] != c,
        decreases n - i,
    {
        if s.get_char(i) == c {
            return true;
        }
        i = i + 1;
    }
    false
}

/// Text without escape characters stays as it is.
pub proof fn lemma_without_escapes_keeps_free(s: Seq<char>)
    requires
        escape_free(s),
    ensures
        without_escapes(s) == s,
    decreases s.len(),
{
    if s.len() > 0 {
        lemma_without_escapes_keeps_free(s.drop_last());
        assert(s.last() == s[s.len() - 1]);
        assert(s.drop_last().push(s.last()) =~= s);
    }
}

/// The escape character, which starts a terminal control sequence.
pub open spec fn escape() -> char {
    '\u{1b}'
}

/// Whether `s` holds no escape character.
pub open spec fn escape_free(s: Seq<char>) -> bool {
    forall|j: int| 0 <= j < s.len() ==> s[j] != escape()
}

/// `s` without its escape characters.
pub open spec fn without_escapes(s: Seq<char>) -> Seq<char>
    decreases s.len(),
{
    if s.len() == 0 {
        s
    } else if s.last() == escape() {
        without_escapes(s.drop_last())
    } else {
        without_escapes(s.drop_last()).push(s.last())
    }
}

pub proof fn lemma_without_escapes_is_escape_free(s: Seq<char>)
    ensures
        escape_free(without_escapes(s)),
    decreases s.len(),
{
    if s.len() > 0 {
        lemma_without_escapes_is_escape_free(s.drop_last());
        let prev = without_escapes(s.drop_last());
        if s.last() != escape() {
            assert forall|j: int| 0 <= j < prev.len() + 1 implies prev.push(s.last())[j] != escape() by {
                if j < prev.len() {
                    assert(prev.push(s.last())[j] == prev[j]);
                }
            }
        }
    }
}

/// `s` with its escape characters left out.
pub fn drop_escapes(s: &str) -> (r: String)
    ensures
        r@ == without_escapes(s@),
        escape_free(r@),
{
    let n = s.unicode_len();
    let mut r = String::new();
    let mut i: usize = 0;
    assert(s@.subrange(0, 0) =~= Seq::<char>::empty());
    while i < n
        invariant
            n == s@.len(),
            i <= n,
            r@ == without_escapes(s@.subrange(0, i as int)),
        decreases n - i,
    {
        let c = s.get_char(i);
        let ghost prefix = s@.subrange(0, i + 1);
        assert(prefix.drop_last() =~= s@.subrange(0, i as int));
        assert(prefix.last() == c);
        if c != '\u{1b}' {
            let piece = s.substring_char(i, i + 1);
            assert(piece@ =~= seq![c]);
            r.append(piece);
            assert(r@ =~= without_escapes(prefix));
        }
        i = i + 1;
    }
    assert(s@.subrange(0, n as int) =~= s@);
    proof {
        lemma_without_escapes_is_escape_free(s@);
    }
    r
}

pub proof fn lemma_split_on_len(s: Seq<char>, sep: char)
    ensures
        split_on(s, sep).len() >= 1,
    decreases s.len(),
{
    if s.len() > 0 {
        lemma_split_on_len(s.drop_last(), sep);
    }
}

/// Splitting around one separator splits each side on its own.
pub proof fn lemma_split_on_concat(a: Seq<char>, b: Seq<char>, sep: char)
    ensures
        split_on(a + seq![sep] + b, sep) == split_on(a, sep) + split_on(b, sep),
    decreases b.len(),
{
    let s = a + seq![sep] + b;
    if b.len() == 0 {
        assert(s.drop_last() =~= a);
        assert(split_on(a, sep) + split_on(b, sep) =~= split_on(a, sep).push(Seq::empty()));
    } else {
        lemma_split_on_concat(a, b.drop_last(), sep);
        assert(s.drop_last() =~= a + seq![sep] + b.drop_last());
        lemma_split_on_len(b.drop_last(), sep);
        let x = split_on(a, sep);
        let y = split_on(b.drop_last(), sep);
        if b.last() == sep {
            assert((x + y).push(Seq::empty()) =~= x + y.push(Seq::empty()));
        } else {
            assert((x + y).update((x + y).len() - 1, (x + y).last().push(b.last())) =~= x + y.update(
                y.len() - 1,
                y.last().push(b.last()),
            ));
        }
    }
}

/// A text without the separator is one piece.
pub proof fn lemma_split_on_without_separator(s: Seq<char>, sep: char)
    requires
        forall|j: int| 0 <= j < s.len() ==> s[j] != sep,
    ensures
        split_on(s, sep) == seq![s],
    decreases s.len(),
{
    if s.len() > 0 {
        lemma_split_on_without_separator(s.drop_last(), sep);
        assert(s.drop_last().push(s.last()) =~= s);
        assert(seq![s.drop_last()].update(0, s.drop_last().push(s.last())) =~= seq![s]);
    } else {
        assert(s =~= Seq::<char>::empty());
    }
}

/// Leaving out the empty pieces of two lists one after the other.
pub proof fn lemma_non_empty_concat(x: Seq<Seq<char>>, y: Seq<Seq<char>>)
    ensures
        non_empty(x + y) == non_empty(x) + non_empty(y),
    decreases y.len(),
{
    if y.len() == 0 {
        assert(x + y =~= x);
        assert(non_empty(x) + non_empty(y) =~= non_empty(x));
    } else {
        lemma_non_empty_concat(x, y.drop_last());
        assert((x + y).drop_last() =~= x + y.drop_last());
        assert((x + y).last() == y.last());
        assert((non_empty(x) + non_empty(y.drop_last())).push(y.last()) =~= non_empty(x) + non_empty(
            y.drop_last(),
        ).push(y.last()));
    }
}

/// Joining pieces that hold no separator and splitting again gives them back.
pub proof fn lemma_split_on_join(pieces: Seq<Seq<char>>, sep: char)
    requires
        pieces.len() > 0,
        forall|i: int, j: int|
            0 <= i < pieces.len() && 0 <= j < pieces[i].len() ==> pieces[i][j] != sep,
    ensures
        split_on(join(pieces, sep), sep) == pieces,
    decreases pieces.len(),
{
    let last = pieces.last();
    assert forall|j: int| 0 <= j < last.len() implies last[j] != sep by {
        assert(last[j] == pieces[pieces.len() - 1][j]);
    }
    if pieces.len() == 1 {
        lemma_split_on_without_separator(pieces[0], sep);
        assert(pieces =~= seq![pieces[0]]);
    } else {
        let rest = pieces.drop_last();
        assert forall|i: int, j: int| 0 <= i < rest.len() && 0 <= j < rest[i].len() implies rest[i][j]
            != sep by {
            assert(rest[i] == pieces[i]);
        }
        lemma_split_on_join(rest, sep);
        lemma_split_on_without_separator(last, sep);
        assert(join(rest, sep).push(sep) + last =~= join(rest, sep) + seq![sep] + last);
        lemma_split_on_concat(join(rest, sep), last, sep);
        assert(rest + seq![last] =~= pieces);
    }
}

/// Pieces that are all non-empty are all kept.
pub proof fn lemma_non_empty_keeps_all(pieces: Seq<Seq<char>>)
    requires
        forall|i: int| 0 <= i < pieces.len() ==> (#[trigger] pieces[i]).len() > 0,
    ensures
        non_empty(pieces) == pieces,
    decreases pieces.len(),
{
    if pieces.len() > 0 {
        let rest = pieces.drop_last();
        assert forall|i: int| 0 <= i < rest.len() implies (#[trigger] rest[i]).len() > 0 by {
            assert(rest[i] == pieces[i]);
        }
        lemma_non_empty_keeps_all(rest);
        assert(pieces[pieces.len() - 1].len() > 0);
        assert(rest.push(pieces.last()) =~= pieces);
    }
}

/// The piece of `s` after its last `sep`, or all of `s` when it holds none.
pub fn last_piece(s: &str, sep: char) -> (r: String)
    ensures
        split_on(s@, sep).len() >= 1,
        r@ == split_on(s@, sep).last(),
{
    let n = s.unicode_len();
    let mut start: usize = 0;
    let mut i: usize = 0;
    assert(s@.subrange(0, 0) =~= Seq::<char>::empty());
    while i < n
        invariant
            n == s@.len(),
            start <= i <= n,
            split_on(s@.subrange(0, i as int), sep).len() >= 1,
            split_on(s@.subrange(0, i as int), sep).last() == s@.subrange(start as int, i as int),
        decreases n - i,
    {
        let c = s.get_char(i);
        proof {
            assert(s@.subrange(0, i + 1).drop_last() =~= s@.subrange(0, i as int));
            assert(s@.subrange(0, i + 1).last() == c);
            lemma_split_on_len(s@.subrange(0, i + 1), sep);
        }
        if c == sep {
            start = i + 1;
            assert(s@.subrange(start as int, i + 1) =~= Seq::<char>::empty());
        } else {
            assert(s@.subrange(start as int, i as int).push(c) =~= s@.subrange(
                start as int,
                i + 1,
            ));
        }
        i = i + 1;
    }
    assert(s@.subrange(0, n as int) =~= s@);
    String::from_str(s.substring_char(start, n))
}

} // verus!
