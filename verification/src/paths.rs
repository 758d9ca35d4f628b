//! The directory name that stands for a workspace path.
use vstd::prelude::*;
use vstd::string::*;

use crate::text::{chars_of, digits, first_chars, padded_digits, take_chars, text_between, write_padded};

verus! {

/// A character that separates the parts of a path.
pub open spec fn is_separator(c: char) -> bool {
    c == '/' || c == '\\' || c == ':'
}

/// A character that a directory name takes as it is.
pub open spec fn is_safe(c: char) -> bool {
    ||| '0' <= c && c <= '9'
    ||| 'A' <= c && c <= 'Z'
    ||| 'a' <= c && c <= 'z'
    ||| c == '.'
    ||| c == '_'
    ||| c == '-'
}

/// How a character is written that a directory name does not take: its code
/// point behind a tilde.
pub open spec fn escaped(c: char) -> Seq<char> {
    seq!['~'] + padded_digits((c as u32) as nat, 16, 4)
}

/// A path as one readable name: each run of separators is a hyphen.
pub open spec fn readable(s: Seq<char>) -> Seq<char>
    decreases s.len(),
{
    if s.len() == 0 {
        Seq::empty()
    } else {
        let head = readable(s.drop_last());
        let c = s.last();
        if is_separator(c) {
            if s.len() > 1 && is_separator(s[s.len() - 2]) {
                head
            } else {
                head.push('-')
            }
        } else if is_safe(c) {
            head.push(c)
        } else {
            head + escaped(c)
        }
    }
}

/// A text without the hyphens that it begins with.
pub open spec fn without_hyphens(s: Seq<char>) -> Seq<char>
    decreases s.len(),
{
    if s.len() > 0 && s[0] == '-' {
        without_hyphens(s.drop_first())
    } else {
        s
    }
}

/// The directory name that stands for a path.
pub open spec fn key_of(cwd: Seq<char>) -> Seq<char> {
    let slug = without_hyphens(readable(cwd));
    if slug.len() == 0 {
        "--"@ + "root"@ + "--"@
    } else {
        "--"@ + first_chars(slug, 251) + "--"@
    }
}

proof fn lemma_without_hyphens(s: Seq<char>, k: int)
    requires
        0 <= k <= s.len(),
        forall|i: int| 0 <= i < k ==> s[i] == '-',
        k < s.len() ==> s[k] != '-',
    ensures
        without_hyphens(s) == s.skip(k),
    decreases k,
{
    if k > 0 {
        assert(s[0] == '-');
        lemma_without_hyphens(s.drop_first(), k - 1);
        assert(s.drop_first().skip(k - 1) =~= s.skip(k));
    } else {
        assert(s.skip(0) =~= s);
    }
}

fn safe(c: char) -> (r: bool)
    ensures
        r == is_safe(c),
{
    ('0' <= c && c <= '9') || ('A' <= c && c <= 'Z') || ('a' <= c && c <= 'z') || c == '.' || c
        == '_' || c == '-'
}

/// The directory name that stands for a path.
pub fn project_key(cwd: &str) -> (r: String)
    ensures
        r@ == key_of(cwd@),
{
    let v = chars_of(cwd);
    let mut name = String::new();
    let mut run = false;
    let mut i: usize = 0;
    assert(cwd@.take(0) =~= Seq::empty());
    while i < v.len()
        invariant
            i <= v.len(),
            v@ == cwd@,
            run == (i > 0 && is_separator(cwd@[i - 1])),
            name@ == readable(cwd@.take(i as int)),
        decreases v.len() - i,
    {
        let c = v[i];
        let ghost seen = cwd@.take(i + 1);
        proof {
            assert(seen.drop_last() =~= cwd@.take(i as int));
            assert(seen.last() == c);
            if i > 0 {
                assert(seen[seen.len() - 2] == cwd@[i - 1]);
            }
        }
        if c == '/' || c == '\\' || c == ':' {
            if !run {
                name.push('-');
            }
            run = true;
        } else if safe(c) {
            name.push(c);
            run = false;
        } else {
            let ghost before = name@;
            name.push('~');
            let code = write_padded(c as u32 as u64, 16, 4);
            name.append(code.as_str());
            assert(name@ =~= before + escaped(c));
            run = false;
        }
        i = i + 1;
    }
    assert(cwd@.take(cwd@.len() as int) =~= cwd@);
    let w = chars_of(name.as_str());
    let mut k: usize = 0;
    while k < w.len() && w[k] == '-'
        invariant
            k <= w.len(),
            forall|j: int| 0 <= j < k ==> w@[j] == '-',
        decreases w.len() - k,
    {
        k = k + 1;
    }
    proof {
        lemma_without_hyphens(w@, k as int);
        assert(w@.subrange(k as int, w@.len() as int) =~= w@.skip(k as int));
    }
    let slug = text_between(&w, k, w.len());
    let mut key = "--".to_owned();
    if slug.as_str().is_empty() {
        key.append("root");
    } else {
        key.append(take_chars(slug.as_str(), 251).as_str());
    }
    key.append("--");
    key
}

/// A character of a directory name.
pub open spec fn is_name_char(c: char) -> bool {
    is_safe(c) || c == '~'
}

proof fn lemma_digits_are_safe(n: nat, base: nat)
    requires
        2 <= base <= 16,
    ensures
        forall|i: int| 0 <= i < digits(n, base).len() ==> is_safe(#[trigger] digits(n, base)[i]),
        digits(n, base).len() > 0,
    decreases n,
{
    if n >= base {
        assert(n / base < n) by (nonlinear_arith)
            requires
                n >= base,
                base >= 2,
        ;
        assert(n % base < base) by (nonlinear_arith)
            requires
                base >= 2,
        ;
        lemma_digits_are_safe(n / base, base);
    }
}

proof fn lemma_readable_is_safe(s: Seq<char>)
    ensures
        forall|i: int| 0 <= i < readable(s).len() ==> is_name_char(#[trigger] readable(s)[i]),
    decreases s.len(),
{
    if s.len() > 0 {
        lemma_readable_is_safe(s.drop_last());
        lemma_digits_are_safe((s.last() as u32) as nat, 16);
        let head = readable(s.drop_last());
        let all = readable(s);
        assert forall|i: int| 0 <= i < all.len() implies is_name_char(#[trigger] all[i]) by {
            if i < head.len() {
                assert(all[i] == head[i]);
            } else if !is_separator(s.last()) && !is_safe(s.last()) {
                let e = escaped(s.last());
                assert(all[i] == e[i - head.len()]);
                if i > head.len() {
                    let p = padded_digits((s.last() as u32) as nat, 16, 4);
                    assert(e[i - head.len()] == p[i - head.len() - 1]);
                    let d = digits((s.last() as u32) as nat, 16);
                    if d.len() < 4 {
                        let z = 4 - d.len();
                        if i - head.len() - 1 >= z {
                            assert(p[i - head.len() - 1] == d[i - head.len() - 1 - z]);
                        }
                    }
                }
            }
        }
    }
}

proof fn lemma_without_hyphens_is_safe(s: Seq<char>)
    requires
        forall|i: int| 0 <= i < s.len() ==> is_name_char(#[trigger] s[i]),
    ensures
        forall|i: int|
            0 <= i < without_hyphens(s).len() ==> is_name_char(#[trigger] without_hyphens(s)[i]),
    decreases s.len(),
{
    if s.len() > 0 && s[0] == '-' {
        assert forall|i: int| 0 <= i < s.drop_first().len() implies is_name_char(
            #[trigger] s.drop_first()[i],
        ) by {
            assert(s.drop_first()[i] == s[i + 1]);
        }
        lemma_without_hyphens_is_safe(s.drop_first());
        assert(without_hyphens(s) == without_hyphens(s.drop_first()));
    } else {
        assert(without_hyphens(s) == s);
        assert forall|i: int| 0 <= i < s.len() implies is_name_char(
            #[trigger] without_hyphens(s)[i],
        ) by {
            assert(is_name_char(s[i]));
        }
    }
}

/// The name of any path is one that a file system takes: it holds no separator,
/// is not empty, has at most 255 characters, and begins and ends with two
/// hyphens.
pub proof fn law_key_is_a_file_name(cwd: Seq<char>)
    ensures
        forall|i: int| 0 <= i < key_of(cwd).len() ==> is_name_char(#[trigger] key_of(cwd)[i]),
        5 <= key_of(cwd).len() <= 255,
        key_of(cwd).take(2) == "--"@,
        key_of(cwd).skip(key_of(cwd).len() - 2) == "--"@,
{
    reveal_strlit("--");
    reveal_strlit("root");
    lemma_readable_is_safe(cwd);
    lemma_without_hyphens_is_safe(readable(cwd));
    let slug = without_hyphens(readable(cwd));
    let body = if slug.len() == 0 {
        "root"@
    } else {
        first_chars(slug, 251)
    };
    let key = key_of(cwd);
    assert(key == "--"@ + body + "--"@);
    assert forall|i: int| 0 <= i < body.len() implies is_name_char(#[trigger] body[i]) by {
        if slug.len() > 0 {
            assert(body[i] == slug[i]);
        }
    }
    assert forall|i: int| 0 <= i < key.len() implies is_name_char(#[trigger] key[i]) by {
        if 2 <= i < 2 + body.len() {
            assert(key[i] == body[i - 2]);
        }
    }
    assert(key.take(2) =~= "--"@);
    assert(key.skip(key.len() - 2) =~= "--"@);
}

/// A path of plain characters and single separators is written character by character:
/// the plain ones as they are, each separator as a hyphen.
pub proof fn law_plain_paths_are_readable(s: Seq<char>)
    requires
        forall|i: int| 0 <= i < s.len() ==> is_separator(#[trigger] s[i]) || is_safe(s[i]),
        forall|i: int| 0 < i < s.len() ==> !(is_separator(s[i - 1]) && is_separator(#[trigger] s[i])),
    ensures
        readable(s).len() == s.len(),
        forall|i: int|
            0 <= i < s.len() ==> #[trigger] readable(s)[i] == if s[i] == '/' || s[i] == '\\' || s[i]
                == ':' {
                '-'
            } else {
                s[i]
            },
    decreases s.len(),
{
    if s.len() > 0 {
        let rest = s.drop_last();
        assert forall|i: int| 0 <= i < rest.len() implies is_separator(#[trigger] rest[i])
            || is_safe(rest[i]) by {
            assert(rest[i] == s[i]);
        }
        assert forall|i: int| 0 < i < rest.len() implies !(is_separator(rest[i - 1]) && is_separator(
            #[trigger] rest[i],
        )) by {
            assert(rest[i] == s[i] && rest[i - 1] == s[i - 1]);
        }
        law_plain_paths_are_readable(rest);
        let n = s.len() - 1;
        assert(is_separator(s[n]) || is_safe(s[n]));
        if n > 0 {
            assert(!(is_separator(s[n - 1]) && is_separator(s[n])));
        }
        assert forall|i: int| 0 <= i < s.len() implies #[trigger] readable(s)[i] == if s[i] == '/'
            || s[i] == '\\' || s[i] == ':' {
            '-'
        } else {
            s[i]
        } by {
            if i < n {
                assert(readable(s)[i] == readable(rest)[i]);
                assert(rest[i] == s[i]);
            }
        }
    }
}

/// A run of separators counts once, and a character that a name does not take is written
/// as a tilde and its code point, which nothing but it is written as.
pub proof fn law_other_characters_are_escaped(s: Seq<char>, c: char, d: char)
    ensures
        s.len() > 0 && is_separator(s.last()) && is_separator(c) ==> readable(s.push(c)) == readable(
            s,
        ),
        !is_separator(c) && !is_safe(c) ==> readable(s.push(c)) == readable(s) + escaped(c),
        escaped(c)[0] == '~',
        escaped(c).len() >= 5,
        c != d ==> escaped(c) != escaped(d),
{
    assert(s.push(c).drop_last() =~= s);
    assert(s.push(c).last() == c);
    if s.len() > 0 {
        assert(s.push(c)[s.push(c).len() - 2] == s.last());
    }
    if c != d && escaped(c) == escaped(d) {
        let x = padded_digits((c as u32) as nat, 16, 4);
        let y = padded_digits((d as u32) as nat, 16, 4);
        assert(escaped(c).skip(1) =~= x);
        assert(escaped(d).skip(1) =~= y);
        lemma_hex_value((c as u32) as nat, 4);
        lemma_hex_value((d as u32) as nat, 4);
    }
}

/// The number that hexadecimal digits stand for.
spec fn hex_value(s: Seq<char>) -> int
    decreases s.len(),
{
    if s.len() == 0 {
        0
    } else {
        16 * hex_value(s.drop_last()) + hex_digit(s.last())
    }
}

spec fn hex_digit(c: char) -> int {
    if '0' <= c && c <= '9' {
        c as u32 - '0' as u32
    } else {
        c as u32 - 'A' as u32 + 10
    }
}

proof fn lemma_hex_plain(n: nat)
    ensures
        hex_value(crate::text::digits(n, 16)) == n,
    decreases n,
{
    if n < 16 {
        let s = seq![crate::text::digit(n)];
        assert(crate::text::digits(n, 16) == s);
        assert(s.drop_last() =~= Seq::empty());
        assert(hex_value(s.drop_last()) == 0);
        assert(s.last() == crate::text::digit(n));
    } else {
        lemma_hex_plain(n / 16);
        let s = crate::text::digits(n, 16);
        assert(s == crate::text::digits(n / 16, 16).push(crate::text::digit(n % 16)));
        assert(s.drop_last() =~= crate::text::digits(n / 16, 16));
        assert(s.last() == crate::text::digit(n % 16));
    }
}

proof fn lemma_hex_zeros(zeros: nat, s: Seq<char>)
    ensures
        hex_value(Seq::new(zeros, |i: int| '0') + s) == hex_value(s),
    decreases zeros + s.len(),
{
    let all = Seq::new(zeros, |i: int| '0') + s;
    if s.len() > 0 {
        lemma_hex_zeros(zeros, s.drop_last());
        assert(all.drop_last() =~= Seq::new(zeros, |i: int| '0') + s.drop_last());
        assert(all.last() == s.last());
    } else if zeros > 0 {
        lemma_hex_zeros((zeros - 1) as nat, s);
        assert(all.drop_last() =~= Seq::new((zeros - 1) as nat, |i: int| '0') + s);
        assert(all.last() == '0');
    } else {
        assert(all =~= s);
    }
}

proof fn lemma_hex_value(n: nat, width: nat)
    ensures
        hex_value(padded_digits(n, 16, width)) == n,
{
    lemma_hex_plain(n);
    let plain = crate::text::digits(n, 16);
    if plain.len() < width {
        lemma_hex_zeros((width - plain.len()) as nat, plain);
    }
}

/// The name that stands for a path is the readable path without hyphens in front, between
/// two hyphens, cut where it is longer than 251 characters; a path of which nothing is
/// left is the root.
pub proof fn law_key_is_the_readable_path(cwd: Seq<char>, k: int)
    requires
        0 <= k <= readable(cwd).len(),
        forall|i: int| 0 <= i < k ==> readable(cwd)[i] == '-',
        k < readable(cwd).len() ==> readable(cwd)[k] != '-',
    ensures
        k == readable(cwd).len() ==> key_of(cwd) == "--"@ + "root"@ + "--"@,
        k < readable(cwd).len() <= k + 251 ==> key_of(cwd) == "--"@ + readable(cwd).skip(k) + "--"@,
        readable(cwd).len() > k + 251 ==> key_of(cwd) == "--"@ + readable(cwd).subrange(k, k + 251)
            + "--"@,
{
    lemma_hyphens(readable(cwd), k);
    let slug = readable(cwd).skip(k);
    if slug.len() > 251 {
        assert(slug.take(251) =~= readable(cwd).subrange(k, k + 251));
    }
}

proof fn lemma_hyphens(s: Seq<char>, k: int)
    requires
        0 <= k <= s.len(),
        forall|i: int| 0 <= i < k ==> s[i] == '-',
        k < s.len() ==> s[k] != '-',
    ensures
        without_hyphens(s) == s.skip(k),
    decreases k,
{
    if k > 0 {
        assert(s[0] == '-');
        let rest = s.drop_first();
        assert forall|i: int| 0 <= i < k - 1 implies rest[i] == '-' by {
            assert(rest[i] == s[i + 1]);
        }
        lemma_hyphens(rest, k - 1);
        assert(rest.skip(k - 1) =~= s.skip(k));
    } else {
        assert(s.skip(0) =~= s);
    }
}

/// The characters that a name takes as they are, and those that part a path.
pub proof fn law_names_take_plain_characters(c: char)
    ensures
        is_safe(c) <==> ('0' <= c && c <= '9') || ('A' <= c && c <= 'Z') || ('a' <= c && c <= 'z')
            || c == '.' || c == '_' || c == '-',
        is_separator(c) <==> c == '/' || c == '\\' || c == ':',
{
}

} // verus!
