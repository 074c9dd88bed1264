use vstd::prelude::*;

verus! {

/// A decimal digit.
pub open spec fn digit(d: int) -> char {
    if d == 0 {
        '0'
    } else if d == 1 {
        '1'
    } else if d == 2 {
        '2'
    } else if d == 3 {
        '3'
    } else if d == 4 {
        '4'
    } else if d == 5 {
        '5'
    } else if d == 6 {
        '6'
    } else if d == 7 {
        '7'
    } else if d == 8 {
        '8'
    } else {
        '9'
    }
}

/// Decimal digits of a natural number, without leading zeros.
pub open spec fn dec_nat(n: nat) -> Seq<char>
    decreases n,
{
    if n < 10 {
        seq![digit(n as int)]
    } else {
        dec_nat(n / 10).push(digit((n % 10) as int))
    }
}

/// Decimal form of an integer.
pub open spec fn dec(n: int) -> Seq<char> {
    if n < 0 {
        seq!['-'] + dec_nat((-n) as nat)
    } else {
        dec_nat(n as nat)
    }
}

/// The texts of a list of strings.
pub open spec fn texts(v: Seq<String>) -> Seq<Seq<char>> {
    Seq::new(v.len(), |i: int| v[i]@)
}

/// Texts put together with a separator between them.
pub open spec fn joined(parts: Seq<Seq<char>>, sep: Seq<char>) -> Seq<char>
    decreases parts.len(),
{
    if parts.len() == 0 {
        Seq::empty()
    } else if parts.len() == 1 {
        parts[0]
    } else {
        joined(parts.drop_last(), sep) + sep + parts.last()
    }
}

/// A labelled number, or nothing for zero.
pub open spec fn part(label: Seq<char>, value: int) -> Seq<Seq<char>> {
    if value != 0 {
        seq![label + dec(value)]
    } else {
        Seq::empty()
    }
}

fn digit_text(d: u64) -> (s: &'static str)
    requires
        d < 10,
    ensures
        s@ == seq![digit(d as int)],
{
    proof {
        reveal_strlit("0");
        reveal_strlit("1");
        reveal_strlit("2");
        reveal_strlit("3");
        reveal_strlit("4");
        reveal_strlit("5");
        reveal_strlit("6");
        reveal_strlit("7");
        reveal_strlit("8");
        reveal_strlit("9");
    }
    let s: &'static str = match d {
        0 => "0",
        1 => "1",
        2 => "2",
        3 => "3",
        4 => "4",
        5 => "5",
        6 => "6",
        7 => "7",
        8 => "8",
        _ => "9",
    };
    assert(s@ =~= seq![digit(d as int)]);
    s
}

/// Appends the decimal digits of a natural number.
fn append_nat(s: &mut String, n: u64)
    ensures
        final(s)@ == old(s)@ + dec_nat(n as nat),
    decreases n,
{
    let ghost before = s@;
    if n >= 10 {
        append_nat(s, n / 10);
        s.append(digit_text(n % 10));
        assert(s@ =~= before + dec_nat(n as nat));
    } else {
        s.append(digit_text(n));
    }
}

/// Appends the decimal form of a number.
pub fn append_int(s: &mut String, n: i64)
    requires
        n > i64::MIN,
    ensures
        final(s)@ == old(s)@ + dec(n as int),
{
    let ghost before = s@;
    if n < 0 {
        proof {
            reveal_strlit("-");
        }
        s.append("-");
        append_nat(s, (-n) as u64);
        assert(s@ =~= before + dec(n as int)) by {
            assert("-"@ =~= seq!['-']);
        }
    } else {
        append_nat(s, n as u64);
    }
}

/// Decimal form of a number.
pub fn decimal(n: i32) -> (s: String)
    ensures
        s@ == dec(n as int),
{
    let mut s: String = String::new();
    append_int(&mut s, n as i64);
    assert(s@ =~= dec(n as int));
    s
}

/// Puts texts together with a separator between them.
pub fn join(parts: &Vec<String>, sep: &str) -> (s: String)
    ensures
        s@ == joined(texts(parts@), sep@),
{
    let mut s: String = String::new();
    let mut i: usize = 0;
    assert(texts(parts@).take(0) =~= Seq::<Seq<char>>::empty());
    while i < parts.len()
        invariant
            i <= parts.len(),
            s@ == joined(texts(parts@).take(i as int), sep@),
        decreases parts.len() - i,
    {
        let ghost pre = texts(parts@).take(i as int);
        let ghost next = texts(parts@).take(i as int + 1);
        assert(next.drop_last() =~= pre);
        assert(next.last() == parts@[i as int]@);
        if i > 0 {
            s.append(sep);
        }
        s.append(parts[i].as_str());
        assert(s@ =~= joined(next, sep@));
        i = i + 1;
    }
    assert(texts(parts@).take(parts@.len() as int) =~= texts(parts@));
    s
}

/// Adds a labelled number to a list, unless it is zero.
pub fn push_part(parts: &mut Vec<String>, label: &str, value: i32)
    ensures
        texts(final(parts)@) == texts(old(parts)@) + part(label@, value as int),
{
    let ghost before = parts@;
    if value != 0 {
        let mut s: String = String::new();
        s.append(label);
        append_int(&mut s, value as i64);
        assert(s@ =~= label@ + dec(value as int));
        parts.push(s);
        assert(texts(parts@) =~= texts(before) + seq![label@ + dec(value as int)]);
    } else {
        assert(texts(parts@) =~= texts(before) + part(label@, 0));
    }
}

/// First position from `from` on that holds `c`; the length if there is none.
pub open spec fn find_from(s: Seq<char>, c: char, from: int) -> int
    decreases s.len() - from,
{
    if from >= s.len() {
        s.len() as int
    } else if s[from] == c {
        from
    } else {
        find_from(s, c, from + 1)
    }
}

/// What stands after the last `c`; everything if there is none.
pub open spec fn after_last(s: Seq<char>, c: char) -> Seq<char>
    decreases s.len(),
{
    if find_from(s, c, 0) < s.len() && 0 <= find_from(s, c, 0) {
        after_last(s.skip(find_from(s, c, 0) + 1), c)
    } else {
        s
    }
}

/// The first `n` characters, or all of them if there are fewer.
pub open spec fn head(s: Seq<char>, n: int) -> Seq<char> {
    if s.len() <= n {
        s
    } else {
        s.take(n)
    }
}

/// First position from `from` on that holds a character; the length if there is none.
pub fn position_from(s: &str, c: char, from: usize) -> (i: usize)
    requires
        from <= s@.len(),
    ensures
        i == find_from(s@, c, from as int),
        from <= i <= s@.len(),
{
    let n: usize = s.unicode_len();
    let mut i: usize = from;
    while i < n && s.get_char(i) != c
        invariant
            from <= i <= n,
            n == s@.len(),
            find_from(s@, c, from as int) == find_from(s@, c, i as int),
        decreases n - i,
    {
        i = i + 1;
    }
    i
}

proof fn lemma_find_bounds(s: Seq<char>, c: char, from: int)
    requires
        0 <= from <= s.len(),
    ensures
        from <= find_from(s, c, from) <= s.len(),
        find_from(s, c, from) < s.len() ==> s[find_from(s, c, from)] == c,
    decreases s.len() - from,
{
    if from < s.len() && s[from] != c {
        lemma_find_bounds(s, c, from + 1);
    }
}

/// What stands after the last occurrence of a character.
pub fn tail_after<'a>(s: &'a str, c: char) -> (r: &'a str)
    ensures
        r@ == after_last(s@, c),
{
    let n: usize = s.unicode_len();
    let mut start: usize = 0;
    assert(s@.skip(0) =~= s@);
    loop
        invariant
            start <= n,
            n == s@.len(),
            after_last(s@, c) == after_last(s@.skip(start as int), c),
        decreases n - start,
    {
        let rest: &str = s.substring_char(start, n);
        assert(rest@ =~= s@.skip(start as int));
        let i: usize = position_from(rest, c, 0);
        proof {
            lemma_find_bounds(rest@, c, 0);
        }
        if i >= n - start {
            return rest;
        }
        assert(rest@.skip(i as int + 1) =~= s@.skip(start + i + 1));
        start = start + i + 1;
    }
}

/// The first characters of a text.
pub fn head_of<'a>(s: &'a str, n: usize) -> (r: &'a str)
    ensures
        r@ == head(s@, n as int),
{
    let len: usize = s.unicode_len();
    let to: usize = if len <= n {
        len
    } else {
        n
    };
    let r: &str = s.substring_char(0, to);
    assert(r@ =~= head(s@, n as int));
    r
}

/// A word, or nothing.
pub open spec fn word_if(b: bool, word: Seq<char>) -> Seq<char> {
    if b {
        word
    } else {
        Seq::empty()
    }
}

/// Appends a word, or nothing.
pub fn append_if(s: &mut String, b: bool, word: &str)
    ensures
        final(s)@ == old(s)@ + word_if(b, word@),
{
    let ghost before = s@;
    if b {
        s.append(word);
    } else {
        assert(before + word_if(b, word@) =~= before);
    }
}

/// Appends the decimal form of a count.
pub fn append_usize(s: &mut String, n: usize)
    ensures
        final(s)@ == old(s)@ + dec(n as int),
{
    append_nat(s, n as u64);
}

/// The number that decimal digits stand for.
pub open spec fn read_digits(s: Seq<char>) -> int
    decreases s.len(),
{
    if s.len() == 0 {
        0
    } else {
        10 * read_digits(s.drop_last()) + (s.last() as int - '0' as int)
    }
}

/// Decimal text reads back as the number it was written for: digits without a leading zero, and a
/// sign in front of a negative number only.
pub proof fn law_decimal_reads_back(n: int)
    ensures
        n >= 0 ==> read_digits(dec(n)) == n,
        n < 0 ==> dec(n)[0] == '-' && read_digits(dec(n).skip(1)) == -n,
        n >= 0 ==> forall|i: int| 0 <= i < dec(n).len() ==> '0' <= #[trigger] dec(n)[i] <= '9',
        n > 0 ==> dec(n)[0] != '0',
        dec(n).len() >= 1,
{
    if n >= 0 {
        lemma_digits_read_back(n as nat);
    } else {
        lemma_digits_read_back((-n) as nat);
        assert(dec(n).skip(1) =~= dec_nat((-n) as nat));
    }
}

proof fn lemma_digits_read_back(n: nat)
    ensures
        read_digits(dec_nat(n)) == n,
        forall|i: int| 0 <= i < dec_nat(n).len() ==> '0' <= #[trigger] dec_nat(n)[i] <= '9',
        n > 0 ==> dec_nat(n)[0] != '0',
        dec_nat(n).len() >= 1,
    decreases n,
{
    if n < 10 {
        let s = dec_nat(n);
        assert(s.len() == 1);
        assert(s.drop_last() =~= Seq::<char>::empty());
        assert(read_digits(s.drop_last()) == 0);
    } else {
        lemma_digits_read_back(n / 10);
        assert(dec_nat(n).drop_last() =~= dec_nat(n / 10));
    }
}

/// Parts are joined in their order with the separator between any two, and nowhere else.
pub proof fn law_separator_stands_between(parts: Seq<Seq<char>>, p: Seq<char>, sep: Seq<char>)
    ensures
        joined(Seq::empty(), sep) =~= Seq::<char>::empty(),
        joined(seq![p], sep) =~= p,
        parts.len() > 0 ==> joined(parts.push(p), sep) =~= joined(parts, sep) + sep + p,
{
    assert(parts.push(p).drop_last() =~= parts);
}

/// A number is shown behind its label, zero not at all.
pub proof fn law_zero_is_not_shown(label: Seq<char>, value: int)
    ensures
        part(label, 0).len() == 0,
        value != 0 ==> part(label, value).len() == 1 && part(label, value)[0] =~= label + dec(value),
{
}

/// A character is found at its first place from a position on; where there is none, the search ends
/// behind the text.
pub proof fn law_first_place_is_found(s: Seq<char>, c: char, from: int)
    requires
        0 <= from <= s.len(),
    ensures
        from <= find_from(s, c, from) <= s.len(),
        find_from(s, c, from) < s.len() ==> s[find_from(s, c, from)] == c,
        forall|j: int| from <= j < find_from(s, c, from) ==> #[trigger] s[j] != c,
    decreases s.len() - from,
{
    if from < s.len() && s[from] != c {
        law_first_place_is_found(s, c, from + 1);
    }
}

/// What follows the last place of a character: the end of the text, without the character, and right
/// behind it where the text has it.
pub proof fn law_tail_after_the_last(s: Seq<char>, c: char)
    ensures
        ({
            let t = after_last(s, c);
            &&& t.len() <= s.len()
            &&& t =~= s.skip(s.len() - t.len())
            &&& !t.contains(c)
            &&& t.len() < s.len() ==> s[s.len() - t.len() - 1] == c
            &&& !s.contains(c) ==> t == s
        }),
    decreases s.len(),
{
    law_first_place_is_found(s, c, 0);
    let i = find_from(s, c, 0);
    if i < s.len() {
        let rest = s.skip(i + 1);
        law_tail_after_the_last(rest, c);
        let t = after_last(rest, c);
        assert(t =~= s.skip(s.len() - t.len()));
        if t.len() < rest.len() {
            assert(rest[rest.len() - t.len() - 1] == s[s.len() - t.len() - 1]);
        }
        assert(s.contains(c)) by {
            assert(s[i] == c);
        }
    } else {
        assert(s.skip(0) =~= s);
    }
}

/// The head of a text is its beginning, of the length asked for or whole.
pub proof fn law_head_is_the_beginning(s: Seq<char>, n: int)
    requires
        0 <= n,
    ensures
        head(s, n).len() == if s.len() < n {
            s.len() as int
        } else {
            n
        },
        forall|i: int| 0 <= i < head(s, n).len() ==> #[trigger] head(s, n)[i] == s[i],
{
}

} // verus!
