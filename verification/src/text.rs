//! Text helpers: characters of a string, building strings, and the decimal
//! notations in which numbers are written out.
use vstd::prelude::*;
use crate::fixed::SCALE;

verus! {

/// `String::push` appends one character.
pub assume_specification[ String::push ](s: &mut String, c: char)
    ensures
        final(s)@ == old(s)@.push(c),
;

/// The characters of `s`, in order.
pub fn chars_of(s: &str) -> (v: Vec<char>)
    ensures
        v@ == s@,
{
    let mut v: Vec<char> = Vec::new();
    for c in it: s.chars()
        invariant
            v@ == it.seq().take(it.index()),
    {
        v.push(c);
    }
    v
}

/// The characters `chars[from..to]` as a string.
pub fn text_of(chars: &Vec<char>, from: usize, to: usize) -> (s: String)
    requires
        from <= to <= chars.len(),
    ensures
        s@ == chars@.subrange(from as int, to as int),
{
    let mut s = String::new();
    let mut i: usize = from;
    while i < to
        invariant
            from <= i <= to <= chars.len(),
            s@ == chars@.subrange(from as int, i as int),
        decreases to - i,
    {
        s.push(chars[i]);
        assert(chars@.subrange(from as int, i + 1) =~= chars@.subrange(from as int, i as int).push(
            chars@[i as int],
        ));
        i = i + 1;
    }
    s
}

/// The decimal digit for `d`.
pub open spec fn digit(d: int) -> char
    recommends
        0 <= d < 10,
{
    if d == 0 {
        '0'
    } else if d == 1 {
        '1'
    } else if d == 2 {
        '2'
    } else if d == 3 {
        '3'
    } else if d == 4 {
        '4'
    } else if d == 5 {
        '5'
    } else if d == 6 {
        '6'
    } else if d == 7 {
        '7'
    } else if d == 8 {
        '8'
    } else {
        '9'
    }
}

/// The decimal notation of `n`, without leading zeros.
pub open spec fn decimal(n: nat) -> Seq<char>
    decreases n,
{
    if n < 10 {
        seq![digit(n as int)]
    } else {
        decimal(n / 10).push(digit((n % 10) as int))
    }
}

/// The last `width` decimal digits of `n`, zero-padded on the left.
pub open spec fn decimal_padded(n: nat, width: nat) -> Seq<char>
    decreases width,
{
    if width == 0 {
        Seq::empty()
    } else {
        decimal_padded(n / 10, (width - 1) as nat).push(digit((n % 10) as int))
    }
}

/// `digits` without its trailing zeros.
pub open spec fn trim_zeros(digits: Seq<char>) -> Seq<char>
    decreases digits.len(),
{
    if digits.len() > 0 && digits.last() == '0' {
        trim_zeros(digits.drop_last())
    } else {
        digits
    }
}

/// The magnitude of `v`.
pub open spec fn magnitude(v: int) -> nat {
    if v < 0 {
        (-v) as nat
    } else {
        v as nat
    }
}

/// The sign that precedes a negative number.
pub open spec fn sign_text(v: int) -> Seq<char> {
    if v < 0 {
        seq!['-']
    } else {
        Seq::empty()
    }
}

/// A scalar with exactly two decimal places, rounded half away from zero.
pub open spec fn two_places(v: int) -> Seq<char> {
    let hundredths = (magnitude(v) + 5_000) / 10_000;
    sign_text(v) + decimal(hundredths / 100).push('.') + decimal_padded(hundredths % 100, 2)
}

/// A scalar in its shortest exact notation: the integer part, then, unless
/// the fraction is zero, a point and the fraction's digits without trailing
/// zeros.
pub open spec fn shortest(v: int) -> Seq<char> {
    let whole = magnitude(v) / (SCALE as nat);
    let fraction = magnitude(v) % (SCALE as nat);
    if fraction == 0 {
        sign_text(v) + decimal(whole)
    } else {
        sign_text(v) + decimal(whole).push('.') + trim_zeros(decimal_padded(fraction, 6))
    }
}

fn digit_char(d: u64) -> (c: char)
    requires
        d < 10,
    ensures
        c == digit(d as int),
{
    if d == 0 {
        '0'
    } else if d == 1 {
        '1'
    } else if d == 2 {
        '2'
    } else if d == 3 {
        '3'
    } else if d == 4 {
        '4'
    } else if d == 5 {
        '5'
    } else if d == 6 {
        '6'
    } else if d == 7 {
        '7'
    } else if d == 8 {
        '8'
    } else {
        '9'
    }
}

/// Appends the decimal notation of `n`.
pub fn push_decimal(out: &mut String, n: u64)
    ensures
        final(out)@ == old(out)@ + decimal(n as nat),
    decreases n,
{
    if n >= 10 {
        push_decimal(out, n / 10);
    }
    out.push(digit_char(n % 10));
    assert(out@ =~= old(out)@ + decimal(n as nat));
}

fn push_padded(out: &mut String, n: u64, width: usize)
    ensures
        final(out)@ == old(out)@ + decimal_padded(n as nat, width as nat),
    decreases width,
{
    if width > 0 {
        push_padded(out, n / 10, width - 1);
        out.push(digit_char(n % 10));
    }
    assert(out@ =~= old(out)@ + decimal_padded(n as nat, width as nat));
}

fn magnitude_of(v: i64) -> (m: u64)
    ensures
        m == magnitude(v as int),
{
    if v < 0 {
        let w: i128 = -(v as i128);
        w as u64
    } else {
        v as u64
    }
}

/// Appends `v` with exactly two decimal places.
pub fn push_two_places(out: &mut String, v: i64)
    ensures
        final(out)@ == old(out)@ + two_places(v as int),
{
    if v < 0 {
        out.push('-');
    }
    let hundredths: u64 = ((magnitude_of(v) as u128 + 5_000) / 10_000) as u64;
    push_decimal(out, hundredths / 100);
    out.push('.');
    push_padded(out, hundredths % 100, 2);
    assert(out@ =~= old(out)@ + two_places(v as int));
}

/// Appends `v` in its shortest exact notation.
pub fn push_shortest(out: &mut String, v: i64)
    ensures
        final(out)@ == old(out)@ + shortest(v as int),
{
    if v < 0 {
        out.push('-');
    }
    let m: u64 = magnitude_of(v);
    let whole: u64 = m / 1_000_000;
    let fraction: u64 = m % 1_000_000;
    push_decimal(out, whole);
    if fraction != 0 {
        out.push('.');
        let mut digits = String::new();
        push_padded(&mut digits, fraction, 6);
        assert(digits@ =~= decimal_padded(fraction as nat, 6));
        let cs: Vec<char> = chars_of(digits.as_str());
        let mut end: usize = cs.len();
        assert(cs@.take(end as int) =~= cs@);
        while end > 0 && cs[end - 1] == '0'
            invariant
                end <= cs.len(),
                trim_zeros(cs@.take(end as int)) == trim_zeros(cs@),
            decreases end,
        {
            assert(cs@.take(end as int).drop_last() =~= cs@.take(end - 1));
            end = end - 1;
        }
        let mut i: usize = 0;
        while i < end
            invariant
                i <= end <= cs.len(),
                out@ == old(out)@ + sign_text(v as int) + decimal(whole as nat).push('.')
                    + cs@.take(i as int),
            decreases end - i,
        {
            out.push(cs[i]);
            assert(cs@.take(i + 1) =~= cs@.take(i as int).push(cs@[i as int]));
            i = i + 1;
        }
        assert(trim_zeros(cs@.take(end as int)) == cs@.take(end as int));
    }
    assert(out@ =~= old(out)@ + shortest(v as int));
}

/// The text that `{:?}` formatting gives for a string: the string in double
/// quotes with its special characters escaped.
pub uninterp spec fn debug_text(s: Seq<char>) -> Seq<char>;

/// Formats `s` with `{:?}`, std's `Debug` for `str`.  The result is named,
/// not spelled out: it is the same text for the same string.
#[verifier::external_body]
pub(crate) fn debug_string(s: &String) -> (r: String)
    ensures
        r@ == debug_text(s@),
{
    format!("{:?}", s)
}

/// Whether `word` stands in `s` at `p`.
pub open spec fn occurs_at(s: Seq<char>, p: int, word: Seq<char>) -> bool {
    0 <= p && p + word.len() <= s.len() && s.subrange(p, p + word.len()) == word
}

/// Whether `word` stands somewhere in `s`.
pub open spec fn contains_text(s: Seq<char>, word: Seq<char>) -> bool {
    exists|p: int| occurs_at(s, p, word)
}

/// Whether `word` stands in `s` at `p`.
pub fn occurs(s: &Vec<char>, p: usize, word: &Vec<char>) -> (r: bool)
    requires
        p <= s.len(),
    ensures
        r == occurs_at(s@, p as int, word@),
{
    if word.len() > s.len() - p {
        return false;
    }
    let mut i: usize = 0;
    while i < word.len()
        invariant
            i <= word.len(),
            p + word.len() <= s.len(),
            s@.subrange(p as int, p + i) == word@.take(i as int),
        decreases word.len() - i,
    {
        if s[p + i] != word[i] {
            assert(s@.subrange(p as int, p + word.len())[i as int] != word@[i as int]);
            return false;
        }
        assert(s@.subrange(p as int, p + i + 1) =~= s@.subrange(p as int, p + i).push(s@[p + i]));
        assert(word@.take(i + 1) =~= word@.take(i as int).push(word@[i as int]));
        i = i + 1;
    }
    assert(word@.take(word.len() as int) =~= word@);
    true
}

/// Whether `word` stands somewhere in `s`.
pub fn contains(s: &Vec<char>, word: &Vec<char>) -> (r: bool)
    ensures
        r == contains_text(s@, word@),
{
    let mut p: usize = 0;
    while p < s.len()
        invariant
            p <= s.len(),
            forall|q: int| 0 <= q < p ==> !occurs_at(s@, q, word@),
        decreases s.len() - p,
    {
        if occurs(s, p, word) {
            return true;
        }
        p = p + 1;
    }
    occurs(s, p, word)
}

/// Whether the literal `word` stands somewhere in `s`.
pub fn contains_str(s: &Vec<char>, word: &str) -> (r: bool)
    ensures
        r == contains_text(s@, word@),
{
    let w = chars_of(word);
    contains(s, &w)
}

/// The lower-case form of a text, as Unicode defines it.
pub uninterp spec fn lowercased(s: Seq<char>) -> Seq<char>;

/// `str::to_lowercase`: the lower-case form of `s`.  Unicode's tables decide;
/// the result is named, not spelled out.
#[verifier::external_body]
pub(crate) fn lowercase(s: &str) -> (r: String)
    ensures
        r@ == lowercased(s@),
{
    s.to_lowercase()
}

/// Whether two texts are the same.
pub fn same_text(a: &str, b: &str) -> (r: bool)
    ensures
        r == (a@ == b@),
{
    let x: String = a.to_owned();
    let y: String = b.to_owned();
    x == y
}

/// White space: the characters with the Unicode property `White_Space`.
pub open spec fn is_space(c: char) -> bool {
    let u = c as u32;
    ||| 0x09 <= u <= 0x0d
    ||| u == 0x20
    ||| u == 0x85
    ||| u == 0xa0
    ||| u == 0x1680
    ||| 0x2000 <= u <= 0x200a
    ||| u == 0x2028
    ||| u == 0x2029
    ||| u == 0x202f
    ||| u == 0x205f
    ||| u == 0x3000
}

/// Whether `c` is white space.
pub fn space(c: char) -> (r: bool)
    ensures
        r == is_space(c),
{
    let u: u32 = c as u32;
    (0x09 <= u && u <= 0x0d) || u == 0x20 || u == 0x85 || u == 0xa0 || u == 0x1680 || (0x2000 <= u
        && u <= 0x200a) || u == 0x2028 || u == 0x2029 || u == 0x202f || u == 0x205f || u == 0x3000
}

/// Whether a text holds nothing but white space.
pub open spec fn blank(s: Seq<char>) -> bool {
    forall|i: int| 0 <= i < s.len() ==> is_space(#[trigger] s[i])
}

/// Whether a text holds nothing but white space.
pub fn is_blank(s: &str) -> (r: bool)
    ensures
        r == blank(s@),
{
    let cs = chars_of(s);
    let mut i: usize = 0;
    while i < cs.len()
        invariant
            i <= cs.len(),
            cs@ == s@,
            forall|j: int| 0 <= j < i ==> is_space(#[trigger] cs@[j]),
        decreases cs.len() - i,
    {
        if !space(cs[i]) {
            return false;
        }
        i = i + 1;
    }
    true
}

/// The first place from `from` on at which `word` stands in `s`.
pub open spec fn find_from(s: Seq<char>, word: Seq<char>, from: int) -> Option<int>
    decreases s.len() - from,
{
    if from < 0 || from > s.len() {
        None
    } else if occurs_at(s, from, word) {
        Some(from)
    } else if from == s.len() {
        None
    } else {
        find_from(s, word, from + 1)
    }
}

/// The first place from `from` on at which `word` stands in `s`.
pub fn find(s: &Vec<char>, word: &Vec<char>, from: usize) -> (r: Option<usize>)
    requires
        from <= s.len(),
    ensures
        match r {
            Some(p) => find_from(s@, word@, from as int) == Some(p as int) && from <= p <= s.len(),
            None => find_from(s@, word@, from as int) is None,
        },
{
    let mut p: usize = from;
    while p < s.len()
        invariant
            from <= p <= s.len(),
            find_from(s@, word@, p as int) == find_from(s@, word@, from as int),
        decreases s.len() - p,
    {
        if occurs(s, p, word) {
            return Some(p);
        }
        p = p + 1;
    }
    if occurs(s, p, word) {
        Some(p)
    } else {
        None
    }
}

/// The characters of a sequence of texts.
pub open spec fn pieces_view(pieces: Seq<Vec<char>>) -> Seq<Seq<char>> {
    Seq::new(pieces.len(), |i: int| pieces[i]@)
}

/// The pieces of `s` between the occurrences of `separator`: one more than
/// there are occurrences, some of them empty where separators meet or stand
/// at an end.
pub open spec fn split(s: Seq<char>, separator: char) -> Seq<Seq<char>>
    decreases s.len(),
{
    if s.len() == 0 {
        seq![Seq::empty()]
    } else {
        let front = split(s.drop_last(), separator);
        if s.last() == separator {
            front.push(Seq::empty())
        } else {
            front.drop_last().push(front.last().push(s.last()))
        }
    }
}

/// The pieces of `s` between the occurrences of `separator`.
pub fn split_on(s: &Vec<char>, separator: char) -> (pieces: Vec<Vec<char>>)
    ensures
        pieces_view(pieces@) == split(s@, separator),
        pieces.len() > 0,
{
    let mut done: Vec<Vec<char>> = Vec::new();
    let mut current: Vec<char> = Vec::new();
    let mut i: usize = 0;
    assert(s@.take(0) =~= Seq::<char>::empty());
    assert(pieces_view(done@).push(current@) =~= split(s@.take(0), separator));
    while i < s.len()
        invariant
            i <= s.len(),
            pieces_view(done@).push(current@) == split(s@.take(i as int), separator),
        decreases s.len() - i,
    {
        let ghost before = pieces_view(done@);
        let ghost piece = current@;
        assert(s@.take(i + 1).drop_last() =~= s@.take(i as int));
        assert(before.push(piece).drop_last() =~= before);
        if s[i] == separator {
            done.push(current);
            current = Vec::new();
            assert(pieces_view(done@) =~= before.push(piece));
        } else {
            current.push(s[i]);
            assert(pieces_view(done@) =~= before);
        }
        i = i + 1;
    }
    assert(s@.take(i as int) =~= s@);
    let ghost before = pieces_view(done@);
    let ghost piece = current@;
    done.push(current);
    assert(pieces_view(done@) =~= before.push(piece));
    done
}

/// A piece without the carriage return that it ends with, if it ends with
/// one.
pub open spec fn without_return(piece: Seq<char>) -> Seq<char> {
    if piece.len() > 0 && piece.last() == '\r' {
        piece.drop_last()
    } else {
        piece
    }
}

/// The lines of a text.  A line ends with a line feed, or with a carriage
/// return and a line feed, which are not part of it; the last line need not
/// end so, and is then taken as it stands.  A text that ends with a line
/// ending has no empty line after it.
pub open spec fn lines(s: Seq<char>) -> Seq<Seq<char>> {
    let pieces = split(s, '\n');
    let n = pieces.len() as int;
    let count = if pieces[n - 1].len() == 0 {
        n - 1
    } else {
        n
    };
    Seq::new(
        count as nat,
        |i: int|
            if i < n - 1 {
                without_return(pieces[i])
            } else {
                pieces[i]
            },
    )
}

/// The lines of a text.
pub fn lines_of(s: &Vec<char>) -> (list: Vec<Vec<char>>)
    ensures
        pieces_view(list@) == lines(s@),
{
    let pieces = split_on(s, '\n');
    let n: usize = pieces.len();
    let count: usize = if pieces[n - 1].len() == 0 {
        n - 1
    } else {
        n
    };
    let ghost wanted = lines(s@);
    let mut list: Vec<Vec<char>> = Vec::new();
    let mut i: usize = 0;
    while i < count
        invariant
            i <= count <= n,
            n == pieces.len(),
            n > 0,
            count == wanted.len(),
            pieces_view(pieces@) == split(s@, '\n'),
            wanted == lines(s@),
            list.len() == i,
            forall|a: int| 0 <= a < i ==> (#[trigger] list[a])@ == wanted[a],
        decreases count - i,
    {
        let piece = &pieces[i];
        assert(pieces_view(pieces@)[i as int] == piece@);
        let mut end: usize = piece.len();
        if i < n - 1 && end > 0 && piece[end - 1] == '\r' {
            end = end - 1;
        }
        let mut line: Vec<char> = Vec::new();
        let mut k: usize = 0;
        while k < end
            invariant
                k <= end <= piece.len(),
                line@ == piece@.take(k as int),
            decreases end - k,
        {
            line.push(piece[k]);
            assert(piece@.take(k + 1) =~= piece@.take(k as int).push(piece@[k as int]));
            k = k + 1;
        }
        assert(piece@.take(piece.len() as int) =~= piece@);
        assert(piece@.take(piece.len() - 1) =~= piece@.drop_last());
        list.push(line);
        i = i + 1;
    }
    assert(pieces_view(list@) =~= wanted);
    list
}

/// The words that were closed, and the word that is open, after `s`.
pub open spec fn word_runs(s: Seq<char>) -> (Seq<Seq<char>>, Seq<char>)
    decreases s.len(),
{
    if s.len() == 0 {
        (Seq::empty(), Seq::empty())
    } else {
        let (closed, open) = word_runs(s.drop_last());
        if is_space(s.last()) {
            if open.len() > 0 {
                (closed.push(open), Seq::empty())
            } else {
                (closed, open)
            }
        } else {
            (closed, open.push(s.last()))
        }
    }
}

/// The words of a text: its longest stretches without white space.
pub open spec fn words(s: Seq<char>) -> Seq<Seq<char>> {
    let (closed, open) = word_runs(s);
    if open.len() > 0 {
        closed.push(open)
    } else {
        closed
    }
}

/// The words of a text.
pub fn words_of(s: &Vec<char>) -> (list: Vec<Vec<char>>)
    ensures
        pieces_view(list@) == words(s@),
{
    let mut closed: Vec<Vec<char>> = Vec::new();
    let mut open: Vec<char> = Vec::new();
    let mut i: usize = 0;
    assert(s@.take(0) =~= Seq::<char>::empty());
    assert(pieces_view(closed@) =~= Seq::<Seq<char>>::empty());
    while i < s.len()
        invariant
            i <= s.len(),
            (pieces_view(closed@), open@) == word_runs(s@.take(i as int)),
        decreases s.len() - i,
    {
        let ghost before = pieces_view(closed@);
        let ghost word = open@;
        assert(s@.take(i + 1).drop_last() =~= s@.take(i as int));
        if space(s[i]) {
            if open.len() > 0 {
                closed.push(open);
                open = Vec::new();
                assert(pieces_view(closed@) =~= before.push(word));
            } else {
                assert(pieces_view(closed@) =~= before);
            }
        } else {
            open.push(s[i]);
            assert(pieces_view(closed@) =~= before);
        }
        i = i + 1;
    }
    assert(s@.take(i as int) =~= s@);
    if open.len() > 0 {
        let ghost before = pieces_view(closed@);
        let ghost word = open@;
        closed.push(open);
        assert(pieces_view(closed@) =~= before.push(word));
    }
    closed
}

/// The pieces in a row, with `between` between each two.
pub open spec fn joined(pieces: Seq<Seq<char>>, between: Seq<char>) -> Seq<char>
    decreases pieces.len(),
{
    if pieces.len() == 0 {
        Seq::empty()
    } else if pieces.len() == 1 {
        pieces[0]
    } else {
        joined(pieces.drop_last(), between) + between + pieces.last()
    }
}

/// Appends the characters of `piece`.
pub fn push_chars(out: &mut String, piece: &Vec<char>)
    ensures
        final(out)@ == old(out)@ + piece@,
{
    let mut i: usize = 0;
    assert(out@ =~= old(out)@ + piece@.take(0));
    while i < piece.len()
        invariant
            i <= piece.len(),
            out@ == old(out)@ + piece@.take(i as int),
        decreases piece.len() - i,
    {
        out.push(piece[i]);
        assert(old(out)@ + piece@.take(i + 1) =~= (old(out)@ + piece@.take(i as int)).push(
            piece@[i as int],
        ));
        i = i + 1;
    }
    assert(piece@.take(i as int) =~= piece@);
}

/// The pieces in a row, with `between` between each two.
pub fn join(pieces: &Vec<Vec<char>>, between: &str) -> (text: String)
    ensures
        text@ == joined(pieces_view(pieces@), between@),
{
    let ghost all = pieces_view(pieces@);
    let mut text = String::new();
    let mut i: usize = 0;
    assert(all.take(0) =~= Seq::<Seq<char>>::empty());
    while i < pieces.len()
        invariant
            i <= pieces.len(),
            all == pieces_view(pieces@),
            text@ == joined(all.take(i as int), between@),
        decreases pieces.len() - i,
    {
        assert(all.take(i + 1).drop_last() =~= all.take(i as int));
        assert(all.take(i + 1).last() == pieces[i as int]@);
        let ghost prior = text@;
        if i > 0 {
            text.append(between);
        }
        push_chars(&mut text, &pieces[i]);
        proof {
            if i == 0 {
                assert(prior =~= Seq::<char>::empty());
                assert(text@ =~= pieces[0]@);
                assert(all.take(1)[0] == pieces[0]@);
            }
        }
        i = i + 1;
    }
    assert(all.take(i as int) =~= all);
    text
}

} // verus!
