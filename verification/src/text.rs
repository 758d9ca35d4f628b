//! Text helpers over `Seq<char>`.
use vstd::prelude::*;
use vstd::string::*;

verus! {

/// Appending one character to a string: `String::push` puts it behind the
/// characters that are there.
pub assume_specification[ String::push ](s: &mut String, c: char)
    ensures
        final(s)@ == old(s)@.push(c),
;

/// Whether text `a` comes before text `b`: at the first place where they
/// differ it has the smaller character, or it ends.
pub open spec fn text_before(a: Seq<char>, b: Seq<char>) -> bool
    decreases a.len(),
{
    if b.len() == 0 {
        false
    } else if a.len() == 0 {
        true
    } else if a[0] == b[0] {
        text_before(a.drop_first(), b.drop_first())
    } else {
        a[0] < b[0]
    }
}

/// Whether two texts hold the same characters.
pub fn same(a: &str, b: &str) -> (r: bool)
    ensures
        r == (a@ == b@),
{
    a.to_owned() == b.to_owned()
}

/// The characters of a text.
pub fn chars_of(s: &str) -> (r: Vec<char>)
    ensures
        r@ == s@,
{
    let mut v: Vec<char> = Vec::new();
    for c in it: s.chars()
        invariant
            v@ == it.seq().take(it.index() as int),
            it.seq() == s@,
    {
        v.push(c);
        assert(it.seq().take(it.index() as int + 1) =~= it.seq().take(it.index() as int).push(c));
    }
    assert(s@.take(s@.len() as int) =~= s@);
    v
}

/// The text made of the characters `v[from..to]`.
pub fn text_between(v: &Vec<char>, from: usize, to: usize) -> (r: String)
    requires
        from <= to <= v.len(),
    ensures
        r@ == v@.subrange(from as int, to as int),
{
    let mut s = String::new();
    let mut i: usize = from;
    while i < to
        invariant
            from <= i <= to <= v.len(),
            s@ == v@.subrange(from as int, i as int),
        decreases to - i,
    {
        s.push(v[i]);
        i = i + 1;
        assert(v@.subrange(from as int, i as int) =~= v@.subrange(from as int, i - 1).push(v@[i - 1]));
    }
    s
}

/// The first place at which `wanted` stands.
pub open spec fn position(all: Seq<Seq<char>>, wanted: Seq<char>) -> Option<int>
    decreases all.len(),
{
    if all.len() == 0 {
        None
    } else if all[0] == wanted {
        Some(0int)
    } else {
        match position(all.drop_first(), wanted) {
            Some(k) => Some(k + 1),
            None => None,
        }
    }
}

/// A place where `wanted` stands, with none before it, is its first.
pub proof fn lemma_position_at(all: Seq<Seq<char>>, wanted: Seq<char>, k: int)
    requires
        0 <= k < all.len(),
        all[k] == wanted,
        forall|j: int| 0 <= j < k ==> all[j] != wanted,
    ensures
        position(all, wanted) == Some(k),
    decreases k,
{
    if k > 0 {
        assert(all[0] != wanted);
        let rest = all.drop_first();
        assert forall|j: int| 0 <= j < k - 1 implies rest[j] != wanted by {
            assert(rest[j] == all[j + 1]);
        }
        lemma_position_at(rest, wanted, k - 1);
    }
}

/// Where `wanted` stands nowhere it has no place.
pub proof fn lemma_position_none(all: Seq<Seq<char>>, wanted: Seq<char>)
    requires
        forall|j: int| 0 <= j < all.len() ==> all[j] != wanted,
    ensures
        position(all, wanted) is None,
    decreases all.len(),
{
    if all.len() > 0 {
        assert(all[0] != wanted);
        let rest = all.drop_first();
        assert forall|j: int| 0 <= j < rest.len() implies rest[j] != wanted by {
            assert(rest[j] == all[j + 1]);
        }
        lemma_position_none(rest, wanted);
    }
}

/// What a place says: `wanted` stands there and nowhere before.
pub proof fn lemma_position(all: Seq<Seq<char>>, wanted: Seq<char>)
    ensures
        match position(all, wanted) {
            Some(k) => 0 <= k < all.len() && all[k] == wanted && forall|j: int|
                0 <= j < k ==> all[j] != wanted,
            None => forall|j: int| 0 <= j < all.len() ==> all[j] != wanted,
        },
    decreases all.len(),
{
    if all.len() > 0 && all[0] != wanted {
        let rest = all.drop_first();
        lemma_position(rest, wanted);
        match position(rest, wanted) {
            Some(k) => {
                assert forall|j: int| 0 <= j < k + 1 implies all[j] != wanted by {
                    if j > 0 {
                        assert(rest[j - 1] == all[j]);
                    }
                }
            },
            None => {
                assert forall|j: int| 0 <= j < all.len() implies all[j] != wanted by {
                    if j > 0 {
                        assert(rest[j - 1] == all[j]);
                    }
                }
            },
        }
    }
}

/// Unicode white space.
pub open spec fn is_white(c: char) -> bool {
    let n = c as u32;
    ||| 0x09 <= n <= 0x0d
    ||| n == 0x20
    ||| n == 0x85
    ||| n == 0xa0
    ||| n == 0x1680
    ||| 0x2000 <= n <= 0x200a
    ||| n == 0x2028
    ||| n == 0x2029
    ||| n == 0x202f
    ||| n == 0x205f
    ||| n == 0x3000
}

/// Whether a character is Unicode white space.
pub fn white(c: char) -> (r: bool)
    ensures
        r == is_white(c),
{
    let n: u32 = c as u32;
    (0x09 <= n && n <= 0x0d) || n == 0x20 || n == 0x85 || n == 0xa0 || n == 0x1680 || (0x2000 <= n
        && n <= 0x200a) || n == 0x2028 || n == 0x2029 || n == 0x202f || n == 0x205f || n == 0x3000
}

/// A text of nothing but white space.
pub open spec fn is_blank(s: Seq<char>) -> bool {
    forall|i: int| 0 <= i < s.len() ==> is_white(#[trigger] s[i])
}

/// A text without the white space that it begins with.
pub open spec fn trimmed_front(s: Seq<char>) -> Seq<char>
    decreases s.len(),
{
    if s.len() > 0 && is_white(s[0]) {
        trimmed_front(s.drop_first())
    } else {
        s
    }
}

/// A text without the white space that it ends with.
pub open spec fn trimmed_back(s: Seq<char>) -> Seq<char>
    decreases s.len(),
{
    if s.len() > 0 && is_white(s.last()) {
        trimmed_back(s.drop_last())
    } else {
        s
    }
}

/// A text without the white space around it.
pub open spec fn trimmed(s: Seq<char>) -> Seq<char> {
    trimmed_back(trimmed_front(s))
}

pub proof fn lemma_trimmed_front(s: Seq<char>, k: int)
    requires
        0 <= k <= s.len(),
        forall|i: int| 0 <= i < k ==> is_white(#[trigger] s[i]),
        k < s.len() ==> !is_white(s[k]),
    ensures
        trimmed_front(s) == s.skip(k),
    decreases k,
{
    if k > 0 {
        assert(is_white(s[0]));
        let rest = s.drop_first();
        assert forall|i: int| 0 <= i < k - 1 implies is_white(#[trigger] rest[i]) by {
            assert(rest[i] == s[i + 1]);
        }
        lemma_trimmed_front(rest, k - 1);
        assert(rest.skip(k - 1) =~= s.skip(k));
    } else {
        assert(s.skip(0) =~= s);
    }
}

proof fn lemma_trimmed_back(s: Seq<char>, k: int)
    requires
        0 <= k <= s.len(),
        forall|i: int| k <= i < s.len() ==> is_white(#[trigger] s[i]),
        k > 0 ==> !is_white(s[k - 1]),
    ensures
        trimmed_back(s) == s.take(k),
    decreases s.len() - k,
{
    if k < s.len() {
        assert(is_white(s[s.len() - 1]));
        lemma_trimmed_back(s.drop_last(), k);
        assert(s.drop_last().take(k) =~= s.take(k));
    } else {
        assert(s.take(k) =~= s);
    }
}

/// A text without the white space around it.
pub fn trim(s: &str) -> (r: String)
    ensures
        r@ == trimmed(s@),
{
    let v = chars_of(s);
    let n: usize = v.len();
    let mut from: usize = 0;
    while from < n && white(v[from])
        invariant
            from <= n == v.len(),
            forall|i: int| 0 <= i < from ==> is_white(#[trigger] v@[i]),
        decreases n - from,
    {
        from = from + 1;
    }
    let mut to: usize = n;
    while to > from && white(v[to - 1])
        invariant
            from <= to <= n == v.len(),
            forall|i: int| to <= i < n ==> is_white(#[trigger] v@[i]),
        decreases to,
    {
        to = to - 1;
    }
    proof {
        lemma_trimmed_front(s@, from as int);
        let rest = s@.skip(from as int);
        assert forall|i: int| to - from <= i < rest.len() implies is_white(#[trigger] rest[i]) by {
            assert(rest[i] == s@[i + from]);
        }
        if to > from {
            assert(rest[to - from - 1] == s@[to - 1]);
        }
        lemma_trimmed_back(rest, to - from);
        assert(rest.take(to - from) =~= s@.subrange(from as int, to as int));
    }
    text_between(&v, from, to)
}

/// Whether a text is nothing but white space.
pub fn blank(s: &str) -> (r: bool)
    ensures
        r == is_blank(s@),
{
    let v = chars_of(s);
    let mut i: usize = 0;
    while i < v.len()
        invariant
            i <= v.len(),
            v@ == s@,
            forall|k: int| 0 <= k < i ==> is_white(#[trigger] s@[k]),
        decreases v.len() - i,
    {
        if !white(v[i]) {
            assert(!is_white(s@[i as int]));
            return false;
        }
        i = i + 1;
    }
    true
}

/// The beginning of a text, up to `n` characters.
pub open spec fn first_chars(s: Seq<char>, n: nat) -> Seq<char> {
    if s.len() <= n {
        s
    } else {
        s.take(n as int)
    }
}

/// The beginning of a text, up to `n` characters.
pub fn take_chars(s: &str, n: usize) -> (r: String)
    ensures
        r@ == first_chars(s@, n as nat),
{
    let v = chars_of(s);
    let to: usize = if v.len() <= n {
        v.len()
    } else {
        n
    };
    proof {
        assert(v@.subrange(0, v@.len() as int) =~= v@);
        assert(n <= v@.len() ==> v@.subrange(0, n as int) =~= v@.take(n as int));
    }
    text_between(&v, 0, to)
}

/// Whether a text begins with another.
pub open spec fn begins_with(s: Seq<char>, prefix: Seq<char>) -> bool {
    prefix.len() <= s.len() && s.take(prefix.len() as int) == prefix
}

/// Whether a text begins with another.
pub fn starts_with(s: &str, prefix: &str) -> (r: bool)
    ensures
        r == begins_with(s@, prefix@),
{
    let v = chars_of(s);
    let p = chars_of(prefix);
    if p.len() > v.len() {
        return false;
    }
    let mut i: usize = 0;
    while i < p.len()
        invariant
            i <= p.len() <= v.len(),
            v@ == s@,
            p@ == prefix@,
            forall|k: int| 0 <= k < i ==> s@[k] == prefix@[k],
        decreases p.len() - i,
    {
        if v[i] != p[i] {
            assert(s@.take(prefix@.len() as int)[i as int] != prefix@[i as int]);
            return false;
        }
        i = i + 1;
    }
    assert(s@.take(prefix@.len() as int) =~= prefix@);
    true
}

/// A text without the beginning that it has in common with another.
pub fn without_prefix(s: &str, prefix: &str) -> (r: Option<String>)
    ensures
        match r {
            Some(rest) => begins_with(s@, prefix@) && rest@ == s@.skip(prefix@.len() as int),
            None => !begins_with(s@, prefix@),
        },
{
    if !starts_with(s, prefix) {
        return None;
    }
    let v = chars_of(s);
    let n: usize = chars_of(prefix).len();
    assert(v@.subrange(n as int, v@.len() as int) =~= v@.skip(n as int));
    Some(text_between(&v, n, v.len()))
}

/// One text behind another.
pub fn joined(a: &str, b: &str) -> (r: String)
    ensures
        r@ == a@ + b@,
{
    let mut s = a.to_owned();
    s.append(b);
    s
}

/// Three texts behind one another.
pub fn joined3(a: &str, b: &str, c: &str) -> (r: String)
    ensures
        r@ == a@ + b@ + c@,
{
    let mut s = a.to_owned();
    s.append(b);
    s.append(c);
    s
}

/// A decimal or hexadecimal digit.
pub open spec fn digit(n: nat) -> char {
    if n < 10 {
        (('0' as u32 + n) as u32) as char
    } else {
        (('A' as u32 + (n - 10)) as u32) as char
    }
}

/// A number in a base up to sixteen, without leading zeros.
pub open spec fn digits(n: nat, base: nat) -> Seq<char>
    decreases n via digits_shrink
{
    if base < 2 || n < base {
        seq![digit(n)]
    } else {
        digits(n / base, base).push(digit(n % base))
    }
}

#[via_fn]
proof fn digits_shrink(n: nat, base: nat) {
    if !(base < 2 || n < base) {
        assert(n / base < n) by (nonlinear_arith)
            requires
                n >= base,
                base >= 2,
        ;
    }
}

/// A number in a base up to sixteen, with zeros before it up to a width.
pub open spec fn padded_digits(n: nat, base: nat, width: nat) -> Seq<char> {
    let plain = digits(n, base);
    if plain.len() < width {
        Seq::new((width - plain.len()) as nat, |i: int| '0') + plain
    } else {
        plain
    }
}

fn digit_char(n: u64) -> (r: char)
    requires
        n < 16,
    ensures
        r == digit(n as nat),
{
    if n == 0 {
        '0'
    } else if n == 1 {
        '1'
    } else if n == 2 {
        '2'
    } else if n == 3 {
        '3'
    } else if n == 4 {
        '4'
    } else if n == 5 {
        '5'
    } else if n == 6 {
        '6'
    } else if n == 7 {
        '7'
    } else if n == 8 {
        '8'
    } else if n == 9 {
        '9'
    } else if n == 10 {
        'A'
    } else if n == 11 {
        'B'
    } else if n == 12 {
        'C'
    } else if n == 13 {
        'D'
    } else if n == 14 {
        'E'
    } else {
        'F'
    }
}

/// A number in a base up to sixteen, without leading zeros.
pub fn write_digits(n: u64, base: u64) -> (r: String)
    requires
        2 <= base <= 16,
    ensures
        r@ == digits(n as nat, base as nat),
    decreases n,
{
    if n < base {
        let mut s = String::new();
        s.push(digit_char(n));
        assert(s@ =~= seq![digit(n as nat)]);
        s
    } else {
        assert(n / base < n) by (nonlinear_arith)
            requires
                n >= base,
                base >= 2,
        ;
        assert(n % base < base) by (nonlinear_arith)
            requires
                base >= 2,
        ;
        let mut s = write_digits(n / base, base);
        s.push(digit_char(n % base));
        s
    }
}

/// A number in a base up to sixteen, with zeros before it up to a width.
pub fn write_padded(n: u64, base: u64, width: usize) -> (r: String)
    requires
        2 <= base <= 16,
    ensures
        r@ == padded_digits(n as nat, base as nat, width as nat),
{
    let plain = write_digits(n, base);
    let len: usize = chars_of(plain.as_str()).len();
    if len >= width {
        return plain;
    }
    let mut s = String::new();
    let mut i: usize = 0;
    while i < width - len
        invariant
            len < width,
            i <= width - len,
            s@ == Seq::new(i as nat, |k: int| '0'),
        decreases width - len - i,
    {
        s.push('0');
        i = i + 1;
        assert(s@ =~= Seq::new(i as nat, |k: int| '0'));
    }
    s.append(plain.as_str());
    s
}

/// A number in decimal.
pub open spec fn decimal(n: nat) -> Seq<char> {
    digits(n, 10)
}

/// A number in decimal.
pub fn write_decimal(n: u64) -> (r: String)
    ensures
        r@ == decimal(n as nat),
{
    write_digits(n, 10)
}

/// A text does not come before itself.
pub proof fn lemma_text_before_differs(a: Seq<char>, b: Seq<char>)
    requires
        text_before(a, b),
    ensures
        a != b,
    decreases a.len(),
{
    if a.len() > 0 && a[0] == b[0] {
        lemma_text_before_differs(a.drop_first(), b.drop_first());
    }
}

/// A character with capital ASCII letters made small.
pub open spec fn small(c: char) -> char {
    if 'A' <= c && c <= 'Z' {
        ((c as u32 + 32) as u32) as char
    } else {
        c
    }
}

/// A text with capital ASCII letters made small.
pub open spec fn lowered(s: Seq<char>) -> Seq<char> {
    s.map_values(|c: char| small(c))
}

fn small_char(c: char) -> (r: char)
    ensures
        r == small(c),
{
    if 'A' <= c && c <= 'Z' {
        ((c as u8) + 32) as char
    } else {
        c
    }
}

/// A text with capital ASCII letters made small.
pub fn lower(s: &str) -> (r: String)
    ensures
        r@ == lowered(s@),
{
    let v = chars_of(s);
    let mut out = String::new();
    let mut i: usize = 0;
    while i < v.len()
        invariant
            i <= v.len(),
            v@ == s@,
            out@ == lowered(s@).take(i as int),
        decreases v.len() - i,
    {
        out.push(small_char(v[i]));
        assert(lowered(s@).take(i + 1) =~= lowered(s@).take(i as int).push(small(v@[i as int])));
        i = i + 1;
    }
    assert(lowered(s@).take(s@.len() as int) =~= lowered(s@));
    out
}

/// The place of the first such character; the length where there is none.
pub open spec fn char_place(s: Seq<char>, c: char) -> int
    decreases s.len(),
{
    if s.len() == 0 || s[0] == c {
        0
    } else {
        1 + char_place(s.drop_first(), c)
    }
}

/// What stands at the place of a character, and before it.
pub proof fn lemma_char_place(s: Seq<char>, c: char)
    ensures
        0 <= char_place(s, c) <= s.len(),
        char_place(s, c) < s.len() ==> s[char_place(s, c)] == c,
        forall|i: int| 0 <= i < char_place(s, c) ==> s[i] != c,
    decreases s.len(),
{
    if s.len() > 0 && s[0] != c {
        lemma_char_place(s.drop_first(), c);
        assert forall|i: int| 0 <= i < char_place(s, c) implies s[i] != c by {
            if i > 0 {
                assert(s.drop_first()[i - 1] == s[i]);
            }
        }
    }
}

/// A place where a character stands, with none before it, is its first.
pub proof fn lemma_char_place_is(s: Seq<char>, c: char, k: int)
    requires
        0 <= k <= s.len(),
        k < s.len() ==> s[k] == c,
        forall|i: int| 0 <= i < k ==> s[i] != c,
    ensures
        char_place(s, c) == k,
{
    lemma_char_place(s, c);
    let p = char_place(s, c);
    if p < k {
        assert(s[p] != c);
    } else if k < p {
        assert(s[k] != c);
    }
}

/// The two parts of a text around the first such character.
pub open spec fn parted(s: Seq<char>, c: char) -> Option<(Seq<char>, Seq<char>)> {
    let k = char_place(s, c);
    if k < s.len() {
        Some((s.take(k), s.skip(k + 1)))
    } else {
        None
    }
}

/// The two parts of a text around the first such character.
pub fn split_once(s: &str, c: char) -> (r: Option<(String, String)>)
    ensures
        match r {
            Some((a, b)) => parted(s@, c) == Some((a@, b@)),
            None => parted(s@, c) is None,
        },
{
    let v = chars_of(s);
    let mut i: usize = 0;
    while i < v.len() && v[i] != c
        invariant
            i <= v.len(),
            v@ == s@,
            forall|k: int| 0 <= k < i ==> s@[k] != c,
        decreases v.len() - i,
    {
        i = i + 1;
    }
    proof {
        lemma_char_place_is(s@, c, i as int);
    }
    if i < v.len() {
        proof {
            assert(v@.subrange(0, i as int) =~= s@.take(i as int));
            assert(v@.subrange(i + 1, v@.len() as int) =~= s@.skip(i + 1));
        }
        Some((text_between(&v, 0, i), text_between(&v, i + 1, v.len())))
    } else {
        None
    }
}

/// Whether a text stands somewhere in another.
pub open spec fn has_part(s: Seq<char>, part: Seq<char>) -> bool {
    exists|i: int| 0 <= i <= s.len() - part.len() && #[trigger] part_at(s, part, i)
}

/// Whether a text stands at a place in another.
pub open spec fn part_at(s: Seq<char>, part: Seq<char>, i: int) -> bool {
    s.subrange(i, i + part.len()) == part
}

fn matches_at(v: &Vec<char>, p: &Vec<char>, at: usize) -> (r: bool)
    requires
        at + p.len() <= v.len(),
    ensures
        r == part_at(v@, p@, at as int),
{
    let mut i: usize = 0;
    while i < p.len()
        invariant
            i <= p.len(),
            at + p.len() <= v.len(),
            forall|k: int| 0 <= k < i ==> v@[at + k] == p@[k],
        decreases p.len() - i,
    {
        if v[at + i] != p[i] {
            assert(v@.subrange(at as int, at + p@.len())[i as int] != p@[i as int]);
            return false;
        }
        i = i + 1;
    }
    assert(v@.subrange(at as int, at + p@.len()) =~= p@);
    true
}

/// Whether a text stands somewhere in another.
pub fn contains(s: &str, part: &str) -> (r: bool)
    ensures
        r == has_part(s@, part@),
{
    let v = chars_of(s);
    let p = chars_of(part);
    if p.len() > v.len() {
        return false;
    }
    let last: usize = v.len() - p.len();
    let mut i: usize = 0;
    while i <= last
        invariant
            i <= last + 1,
            last == v.len() - p.len(),
            p.len() <= v.len(),
            v@ == s@,
            p@ == part@,
            forall|k: int| 0 <= k < i ==> !(#[trigger] part_at(s@, part@, k)),
        decreases last + 1 - i,
    {
        if matches_at(&v, &p, i) {
            return true;
        }
        if i == last {
            return false;
        }
        i = i + 1;
    }
    false
}

/// The lines of a text: each ends with a line feed, which may have a carriage
/// return before it, or with the text.
pub open spec fn lines_of(s: Seq<char>) -> Seq<Seq<char>>
    decreases s.len(),
{
    if s.len() == 0 {
        Seq::empty()
    } else {
        let k = char_place(s, '\n');
        if 0 <= k < s.len() {
            let line = if k > 0 && s[k - 1] == '\r' {
                s.take(k - 1)
            } else {
                s.take(k)
            };
            seq![line] + lines_of(s.skip(k + 1))
        } else {
            seq![s]
        }
    }
}

/// The lines of a text.
pub fn lines(s: &str) -> (r: Vec<String>)
    ensures
        r@.map_values(|l: String| l@) == lines_of(s@),
{
    let v = chars_of(s);
    let mut out: Vec<String> = Vec::new();
    let mut start: usize = 0;
    let ghost shown = |o: Seq<String>| o.map_values(|l: String| l@);
    proof {
        assert(s@.skip(0) =~= s@);
        assert(shown(out@) + lines_of(s@) =~= lines_of(s@));
    }
    while start < v.len()
        invariant
            start <= v.len(),
            v@ == s@,
            shown == (|o: Seq<String>| o.map_values(|l: String| l@)),
            lines_of(s@) == shown(out@) + lines_of(s@.skip(start as int)),
        decreases v.len() - start,
    {
        let ghost rest = s@.skip(start as int);
        let ghost seen = out@;
        let mut k: usize = start;
        while k < v.len() && v[k] != '\n'
            invariant
                start <= k <= v.len(),
                v@ == s@,
                rest == s@.skip(start as int),
                forall|j: int| 0 <= j < k - start ==> rest[j] != '\n',
            decreases v.len() - k,
        {
            assert(rest[k - start] == v@[k as int]);
            k = k + 1;
        }
        proof {
            if k < v.len() {
                assert(rest[k - start] == '\n');
            }
            lemma_char_place_is(rest, '\n', k - start);
        }
        if k < v.len() {
            let end: usize = if k > start && v[k - 1] == '\r' {
                k - 1
            } else {
                k
            };
            let line = text_between(&v, start, end);
            proof {
                if k > start {
                    assert(rest[k - start - 1] == v@[k - 1]);
                }
                assert(v@.subrange(start as int, end as int) =~= rest.take(end - start));
                assert(rest.skip(k - start + 1) =~= s@.skip(k + 1));
                assert(shown(seen.push(line)) =~= shown(seen).push(line@));
                assert(shown(seen) + (seq![line@] + lines_of(s@.skip(k + 1))) =~= shown(seen).push(
                    line@,
                ) + lines_of(s@.skip(k + 1)));
            }
            out.push(line);
            start = k + 1;
        } else {
            let line = text_between(&v, start, k);
            proof {
                assert(v@.subrange(start as int, k as int) =~= rest);
                assert(shown(seen.push(line)) =~= shown(seen).push(line@));
                assert(s@.skip(v@.len() as int) =~= Seq::empty());
                assert(shown(seen) + seq![line@] =~= shown(seen).push(line@) + lines_of(
                    s@.skip(v@.len() as int),
                ));
            }
            out.push(line);
            start = v.len();
        }
    }
    proof {
        assert(s@.skip(s@.len() as int) =~= Seq::empty());
        assert(shown(out@) + lines_of(s@.skip(s@.len() as int)) =~= shown(out@));
    }
    out
}

/// Texts of one length go before what follows them.
pub proof fn lemma_text_before_extends(x: Seq<char>, y: Seq<char>, u: Seq<char>, v: Seq<char>)
    requires
        x.len() == y.len(),
    ensures
        text_before(x, y) ==> text_before(x + u, y + v),
        x == y ==> text_before(x + u, y + v) == text_before(u, v),
    decreases x.len(),
{
    if x.len() == 0 {
        assert(x + u =~= u);
        assert(y + v =~= v);
    } else {
        assert((x + u).drop_first() =~= x.drop_first() + u);
        assert((y + v).drop_first() =~= y.drop_first() + v);
        lemma_text_before_extends(x.drop_first(), y.drop_first(), u, v);
    }
}

proof fn lemma_text_before_at(a: Seq<char>, b: Seq<char>, k: int)
    requires
        0 <= k <= a.len(),
        k <= b.len(),
        forall|i: int| 0 <= i < k ==> a[i] == b[i],
    ensures
        text_before(a, b) == text_before(a.skip(k), b.skip(k)),
    decreases k,
{
    if k == 0 {
        assert(a.skip(0) =~= a);
        assert(b.skip(0) =~= b);
    } else {
        lemma_text_before_at(a, b, k - 1);
        let x = a.skip(k - 1);
        let y = b.skip(k - 1);
        assert(x[0] == a[k - 1] && y[0] == b[k - 1]);
        assert(x.drop_first() =~= a.skip(k));
        assert(y.drop_first() =~= b.skip(k));
    }
}

/// Whether a text comes before another.
pub fn comes_before(a: &str, b: &str) -> (r: bool)
    ensures
        r == text_before(a@, b@),
{
    let v = chars_of(a);
    let w = chars_of(b);
    let mut i: usize = 0;
    while i < v.len() && i < w.len() && v[i] == w[i]
        invariant
            i <= v.len(),
            i <= w.len(),
            v@ == a@,
            w@ == b@,
            forall|k: int| 0 <= k < i ==> a@[k] == b@[k],
        decreases v.len() - i,
    {
        i = i + 1;
    }
    proof {
        lemma_text_before_at(a@, b@, i as int);
        if i < v.len() {
            assert(a@.skip(i as int)[0] == v@[i as int]);
        }
        if i < w.len() {
            assert(b@.skip(i as int)[0] == w@[i as int]);
        }
    }
    if i >= w.len() {
        false
    } else if i >= v.len() {
        true
    } else {
        v[i] < w[i]
    }
}

/// Of two texts that differ one comes before the other.
pub proof fn lemma_text_before_total(a: Seq<char>, b: Seq<char>)
    ensures
        text_before(a, b) || a == b || text_before(b, a),
    decreases a.len(),
{
    if a.len() == 0 {
        if b.len() == 0 {
            assert(a =~= b);
        }
    } else if b.len() > 0 && a[0] == b[0] {
        lemma_text_before_total(a.drop_first(), b.drop_first());
        if a.drop_first() == b.drop_first() {
            assert(a =~= seq![a[0]] + a.drop_first());
            assert(b =~= seq![b[0]] + b.drop_first());
        }
    } else if b.len() > 0 {
        let x: char = a[0];
        let y: char = b[0];
        assert(x < y || y < x);
    }
}

/// What comes before a text comes before all that the text comes before.
pub proof fn lemma_text_before_chains(a: Seq<char>, b: Seq<char>, c: Seq<char>)
    requires
        text_before(a, b),
        text_before(b, c),
    ensures
        text_before(a, c),
    decreases a.len(),
{
    if a.len() > 0 && a[0] == b[0] && b[0] == c[0] {
        lemma_text_before_chains(a.drop_first(), b.drop_first(), c.drop_first());
    }
}

proof fn lemma_front_kept(s: Seq<char>) -> (k: int)
    ensures
        0 <= k <= s.len(),
        forall|i: int| 0 <= i < k ==> is_white(#[trigger] s[i]),
        k < s.len() ==> !is_white(s[k]),
    decreases s.len(),
{
    if s.len() > 0 && is_white(s[0]) {
        let rest = s.drop_first();
        let k = lemma_front_kept(rest);
        assert forall|i: int| 0 <= i < k + 1 implies is_white(#[trigger] s[i]) by {
            if i > 0 {
                assert(s[i] == rest[i - 1]);
            }
        }
        assert(k < rest.len() ==> rest[k] == s[k + 1]);
        k + 1
    } else {
        0
    }
}

proof fn lemma_back_kept(s: Seq<char>) -> (k: int)
    ensures
        0 <= k <= s.len(),
        forall|i: int| k <= i < s.len() ==> is_white(#[trigger] s[i]),
        k > 0 ==> !is_white(s[k - 1]),
    decreases s.len(),
{
    if s.len() > 0 && is_white(s.last()) {
        let rest = s.drop_last();
        let k = lemma_back_kept(rest);
        assert forall|i: int| k <= i < s.len() implies is_white(#[trigger] s[i]) by {
            if i < rest.len() {
                assert(s[i] == rest[i]);
            }
        }
        k
    } else {
        s.len() as int
    }
}

/// Trimming takes the white space around a text and nothing else: what is left stands
/// in the text, between blanks, and neither begins nor ends with white space.
pub proof fn law_trimmed_takes_white_space(s: Seq<char>)
    ensures
        exists|a: Seq<char>, b: Seq<char>|
            is_blank(a) && is_blank(b) && #[trigger] (a + trimmed(s) + b) == s,
        trimmed(s).len() > 0 ==> !is_white(trimmed(s)[0]) && !is_white(trimmed(s).last()),
        is_blank(s) <==> trimmed(s).len() == 0,
{
    let k = lemma_front_kept(s);
    lemma_trimmed_front(s, k);
    let t = s.skip(k);
    let n = lemma_back_kept(t);
    lemma_trimmed_back(t, n);
    let a = s.take(k);
    let b = t.skip(n);
    assert(a + trimmed(s) + b =~= s);
    if trimmed(s).len() > 0 {
        assert(trimmed(s)[0] == s[k]);
        assert(trimmed(s).last() == t[n - 1]);
        assert(!is_white(s[k]));
    } else {
        assert forall|i: int| 0 <= i < s.len() implies is_white(#[trigger] s[i]) by {
            if i >= k {
                assert(t[i - k] == s[i]);
            }
        }
    }
}

/// A text without white space around it stays as it is, whatever blanks it stands
/// between.
pub proof fn law_trimming_undoes_padding(a: Seq<char>, s: Seq<char>, b: Seq<char>)
    requires
        is_blank(a),
        is_blank(b),
        s.len() > 0 ==> !is_white(s[0]) && !is_white(s.last()),
    ensures
        trimmed(a + s + b) == s,
{
    let all = a + s + b;
    if s.len() == 0 {
        lemma_trimmed_front(all, all.len() as int);
        assert(all.skip(all.len() as int) =~= Seq::empty());
        assert(trimmed(all) =~= s);
    } else {
        lemma_trimmed_front(all, a.len() as int);
        let t = all.skip(a.len() as int);
        assert(t =~= s + b);
        lemma_trimmed_back(t, s.len() as int);
        assert(t.take(s.len() as int) =~= s);
    }
}

/// A text that is parted is the first part, the character and the second part, and the
/// first part does not hold the character; one that is not parted does not hold it.
pub proof fn law_parts_make_the_text(s: Seq<char>, c: char)
    ensures
        parted(s, c) matches Some((a, b)) ==> s == a + seq![c] + b && !a.contains(c),
        parted(s, c) is None <==> !s.contains(c),
{
    lemma_char_place(s, c);
    let k = char_place(s, c);
    if k < s.len() {
        assert(s =~= s.take(k) + seq![c] + s.skip(k + 1));
        assert(s.contains(c));
        assert(!s.take(k).contains(c)) by {
            if s.take(k).contains(c) {
                let i = choose|i: int| 0 <= i < k && s.take(k)[i] == c;
                assert(s[i] == c);
            }
        }
    } else if s.contains(c) {
        let i = choose|i: int| 0 <= i < s.len() && s[i] == c;
        assert(s[i] != c);
    }
}

/// Lines written one after another, each with a line feed behind it.
pub open spec fn written_lines(all: Seq<Seq<char>>) -> Seq<char>
    decreases all.len(),
{
    if all.len() == 0 {
        Seq::empty()
    } else {
        all[0] + seq!['\n'] + written_lines(all.drop_first())
    }
}

/// Whether a text is a line: it holds no line feed and does not end with a carriage
/// return.
pub open spec fn is_line(s: Seq<char>) -> bool {
    !s.contains('\n') && (s.len() > 0 ==> s.last() != '\r')
}

/// Lines that are written are read back, all of them, in order; a last line without a
/// line feed counts too.
pub proof fn law_lines_come_back(all: Seq<Seq<char>>, last: Seq<char>)
    requires
        forall|i: int| 0 <= i < all.len() ==> is_line(#[trigger] all[i]),
        !last.contains('\n'),
    ensures
        lines_of(written_lines(all)) == all,
        last.len() > 0 ==> lines_of(written_lines(all) + last) == all.push(last),
    decreases all.len(),
{
    if all.len() == 0 {
        assert(lines_of(written_lines(all)) =~= all);
        assert(written_lines(all) + last =~= last);
        if last.len() > 0 {
            lemma_no_feed(last);
            assert(lines_of(last) =~= all.push(last));
        }
    } else {
        let rest = all.drop_first();
        assert forall|i: int| 0 <= i < rest.len() implies is_line(#[trigger] rest[i]) by {
            assert(rest[i] == all[i + 1]);
        }
        law_lines_come_back(rest, last);
        assert(is_line(all[0]));
        lemma_first_line(all[0], written_lines(rest));
        lemma_first_line(all[0], written_lines(rest) + last);
        assert(written_lines(all) + last =~= all[0] + seq!['\n'] + (written_lines(rest) + last));
        assert(seq![all[0]] + rest =~= all);
        assert(seq![all[0]] + rest.push(last) =~= all.push(last));
    }
}

proof fn lemma_no_feed(s: Seq<char>)
    requires
        !s.contains('\n'),
    ensures
        char_place(s, '\n') == s.len(),
{
    assert forall|i: int| 0 <= i < s.len() implies s[i] != '\n' by {
        if s[i] == '\n' {
            assert(s.contains('\n'));
        }
    }
    lemma_char_place_is(s, '\n', s.len() as int);
}

proof fn lemma_first_line(line: Seq<char>, rest: Seq<char>)
    requires
        is_line(line),
    ensures
        lines_of(line + seq!['\n'] + rest) == seq![line] + lines_of(rest),
{
    let s = line + seq!['\n'] + rest;
    let k = line.len() as int;
    assert forall|i: int| 0 <= i < k implies s[i] != '\n' by {
        if s[i] == '\n' {
            assert(line[i] == '\n');
            assert(line.contains('\n'));
        }
    }
    lemma_char_place_is(s, '\n', k);
    assert(s.take(k) =~= line);
    assert(s.skip(k + 1) =~= rest);
    if k > 0 {
        assert(s[k - 1] == line.last());
    }
}

/// The number that decimal digits stand for.
pub open spec fn decimal_value(s: Seq<char>) -> int
    decreases s.len(),
{
    if s.len() == 0 {
        0
    } else {
        10 * decimal_value(s.drop_last()) + (s.last() as u32 - '0' as u32)
    }
}

/// A number in decimal stands for the number, in digits, without a zero before it.
pub proof fn law_decimal_stands_for_number(n: nat)
    ensures
        decimal_value(decimal(n)) == n,
        decimal(n).len() > 0,
        forall|i: int| 0 <= i < decimal(n).len() ==> '0' <= #[trigger] decimal(n)[i] <= '9',
        n > 0 ==> decimal(n)[0] != '0',
    decreases n,
{
    if n < 10 {
        let s = seq![digit(n)];
        assert(decimal(n) == s);
        assert(s.drop_last() =~= Seq::empty());
        assert(decimal_value(s.drop_last()) == 0);
        assert(s.last() == digit(n));
    } else {
        law_decimal_stands_for_number(n / 10);
        let s = decimal(n);
        assert(s == decimal(n / 10).push(digit(n % 10)));
        assert(s.drop_last() =~= decimal(n / 10));
        assert(s.last() == digit(n % 10));
        assert(s[0] == decimal(n / 10)[0]);
    }
}

/// Making a text small touches only capital ASCII letters, each in its place.
pub proof fn law_lowered_touches_capitals(s: Seq<char>)
    ensures
        lowered(s).len() == s.len(),
        forall|i: int|
            0 <= i < s.len() ==> if 'A' <= s[i] && s[i] <= 'Z' {
                #[trigger] lowered(s)[i] as u32 == s[i] as u32 + 32
            } else {
                lowered(s)[i] == s[i]
            },
        lowered(lowered(s)) == lowered(s),
{
    assert forall|i: int| 0 <= i < s.len() implies small(#[trigger] lowered(s)[i]) == lowered(s)[i] by {
        let c = s[i];
        if 'A' <= c && c <= 'Z' {
            assert(lowered(s)[i] as u32 == c as u32 + 32);
        }
    }
    assert(lowered(lowered(s)) =~= lowered(s));
}

/// What is left of a run by a choice is what was in it and was chosen.
pub proof fn lemma_filter_contains<A>(all: Seq<A>, keep: spec_fn(A) -> bool, x: A)
    ensures
        all.filter(keep).contains(x) <==> all.contains(x) && keep(x),
    decreases all.len(),
{
    reveal(Seq::filter);
    let out = all.filter(keep);
    if all.len() > 0 {
        let rest = all.drop_last();
        let kept = rest.filter(keep);
        lemma_filter_contains(rest, keep, x);
        if all.contains(x) && keep(x) {
            let k = choose|k: int| 0 <= k < all.len() && all[k] == x;
            if k < rest.len() {
                assert(rest[k] == x);
                let j = choose|j: int| 0 <= j < kept.len() && kept[j] == x;
                assert(out[j] == x);
            } else {
                assert(out[out.len() - 1] == x);
            }
        }
        if out.contains(x) {
            let j = choose|j: int| 0 <= j < out.len() && out[j] == x;
            if j < kept.len() {
                assert(kept[j] == x);
                let k = choose|k: int| 0 <= k < rest.len() && rest[k] == x;
                assert(all[k] == x);
            } else {
                assert(all[all.len() - 1] == x);
            }
        }
    }
}

/// Texts are ordered by the first place at which they differ; a text goes before what it
/// begins.
pub proof fn law_first_difference_orders(a: Seq<char>, b: Seq<char>, k: int)
    requires
        0 <= k <= a.len(),
        k <= b.len(),
        forall|i: int| 0 <= i < k ==> a[i] == #[trigger] b[i],
    ensures
        k < a.len() && k < b.len() && a[k] != b[k] ==> (text_before(a, b) <==> a[k] < b[k]),
        k == a.len() && k < b.len() ==> text_before(a, b),
        k == b.len() ==> !text_before(a, b),
    decreases k,
{
    if k > 0 {
        assert(a[0] == b[0]);
        let c = a.drop_first();
        let d = b.drop_first();
        assert forall|i: int| 0 <= i < k - 1 implies c[i] == #[trigger] d[i] by {
            assert(a[i + 1] == b[i + 1]);
        }
        law_first_difference_orders(c, d, k - 1);
    }
}

/// The place of a text among others is the first at which it stands; it has none exactly
/// where it does not stand among them.
pub proof fn law_position_is_the_first(all: Seq<Seq<char>>, wanted: Seq<char>, k: int)
    ensures
        position(all, wanted) == Some(k) <==> 0 <= k < all.len() && all[k] == wanted && forall|
            j: int,
        |
            0 <= j < k ==> #[trigger] all[j] != wanted,
        position(all, wanted) is None <==> !all.contains(wanted),
{
    lemma_position(all, wanted);
    if 0 <= k < all.len() && all[k] == wanted && forall|j: int|
        0 <= j < k ==> #[trigger] all[j] != wanted {
        lemma_position_at(all, wanted, k);
    }
    if position(all, wanted) is Some {
        assert(all[position(all, wanted)->0] == wanted);
    }
}

/// The first characters of a text begin it, are as many as asked for or all that there
/// are.
pub proof fn law_first_characters_begin_the_text(s: Seq<char>, n: nat)
    ensures
        begins_with(s, first_chars(s, n)),
        s.len() >= n ==> first_chars(s, n).len() == n,
        s.len() < n ==> first_chars(s, n) == s,
{
    assert(s.take(s.len() as int) =~= s);
}

/// A text begins with another exactly where it is that other and something behind it.
pub proof fn law_beginnings(s: Seq<char>, prefix: Seq<char>)
    ensures
        begins_with(prefix + s, prefix),
        begins_with(s, prefix) ==> s == prefix + s.skip(prefix.len() as int),
{
    let n = prefix.len() as int;
    assert((prefix + s).take(n) =~= prefix);
    if begins_with(s, prefix) {
        assert(s =~= prefix + s.skip(n));
    }
}

} // verus!
