//! Text helpers: equality, decimal numbers, lists and `/`-separated paths.

use vstd::prelude::*;
use vstd::utf8::*;

verus! {

/// True if the two strings hold the same characters.
pub fn same_text(a: &str, b: &str) -> (same: bool)
    ensures
        same == (a@ == b@),
{
    let x = a.as_bytes();
    let y = b.as_bytes();
    proof {
        encode_utf8_decode_utf8(a@);
        encode_utf8_decode_utf8(b@);
    }
    if x.len() != y.len() {
        return false;
    }
    let mut i: usize = 0;
    while i < x.len()
        invariant
            x@ == encode_utf8(a@),
            y@ == encode_utf8(b@),
            x@.len() == y@.len(),
            i <= x@.len(),
            forall|k: int| 0 <= k < i ==> x@[k] == y@[k],
        decreases x@.len() - i,
    {
        if x[i] != y[i] {
            return false;
        }
        i = i + 1;
    }
    assert(x@ =~= y@);
    true
}

/// The character that stands for one decimal digit.
pub open spec fn digit_char(d: nat) -> char {
    (48 + d) as char
}

/// The decimal numeral of `n`, without leading zeros.
pub open spec fn decimal(n: nat) -> Seq<char>
    decreases n,
{
    if n < 10 {
        seq![digit_char(n)]
    } else {
        decimal(n / 10).push(digit_char(n % 10))
    }
}

/// The decimal numeral of `n`, with a minus sign in front if it is negative.
pub open spec fn signed_decimal(n: int) -> Seq<char> {
    if n < 0 {
        seq!['-'] + decimal((-n) as nat)
    } else {
        decimal(n as nat)
    }
}

fn digit_text(d: u64) -> (s: &'static str)
    requires
        d < 10,
    ensures
        s@ == seq![digit_char(d as nat)],
{
    proof {
        reveal_strlit("0");
        reveal_strlit("1");
        reveal_strlit("2");
        reveal_strlit("3");
        reveal_strlit("4");
        reveal_strlit("5");
        reveal_strlit("6");
        reveal_strlit("7");
        reveal_strlit("8");
        reveal_strlit("9");
    }
    let s: &'static str = match d {
        0 => "0",
        1 => "1",
        2 => "2",
        3 => "3",
        4 => "4",
        5 => "5",
        6 => "6",
        7 => "7",
        8 => "8",
        _ => "9",
    };
    assert(s@ =~= seq![digit_char(d as nat)]);
    s
}

/// Appends the decimal numeral of `n`.
pub fn push_decimal(out: &mut String, n: u64)
    ensures
        final(out)@ == old(out)@ + decimal(n as nat),
    decreases n,
{
    if n >= 10 {
        push_decimal(out, n / 10);
    }
    out.append(digit_text(n % 10));
    assert(out@ =~= old(out)@ + decimal(n as nat));
}

/// Appends the decimal numeral of `n`, signed.
pub fn push_signed(out: &mut String, n: i32)
    ensures
        final(out)@ == old(out)@ + signed_decimal(n as int),
{
    if n < 0 {
        proof {
            reveal_strlit("-");
        }
        out.append("-");
        let magnitude: u64 = (-(n as i64)) as u64;
        push_decimal(out, magnitude);
        assert(out@ =~= old(out)@ + signed_decimal(n as int));
    } else {
        push_decimal(out, n as u64);
    }
}

/// Several texts, one after the other, with a separator between them.
pub open spec fn joined(parts: Seq<Seq<char>>, separator: Seq<char>) -> Seq<char>
    decreases parts.len(),
{
    if parts.len() == 0 {
        Seq::empty()
    } else if parts.len() == 1 {
        parts[0]
    } else {
        joined(parts.drop_last(), separator) + separator + parts.last()
    }
}

/// The position behind the last `/`, or the start if there is none.
pub open spec fn after_last_slash(path: Seq<char>) -> nat
    decreases path.len(),
{
    if path.len() == 0 || path.last() == '/' {
        path.len()
    } else {
        after_last_slash(path.drop_last())
    }
}

/// The name of the file that a path leads to. A `/` or `/.` at the end of the path does not
/// count; a path that ends in `..` or has nothing but those names no file.
pub open spec fn file_name_of(path: Seq<char>) -> Option<Seq<char>>
    decreases path.len(),
{
    let start = after_last_slash(path);
    let last = path.skip(start as int);
    if last.len() == 0 || last == seq!['.'] {
        if 0 < start <= path.len() {
            file_name_of(path.take(start - 1))
        } else {
            None
        }
    } else if last == seq!['.', '.'] {
        None
    } else {
        Some(last)
    }
}

/// A path below a directory. An absolute name stands for itself.
pub open spec fn path_join(dir: Seq<char>, name: Seq<char>) -> Seq<char> {
    if name.len() > 0 && name[0] == '/' {
        name
    } else if dir.len() == 0 || dir.last() == '/' {
        dir + name
    } else {
        dir + seq!['/'] + name
    }
}

/// A path without a `/` or `/.` at its end, which do not count. The root stays as it is.
pub open spec fn trimmed(path: Seq<char>) -> Seq<char>
    decreases path.len(),
{
    let start = after_last_slash(path);
    let last = path.skip(start as int);
    if path.len() > 1 && 0 < start && (last.len() == 0 || last == seq!['.']) {
        trimmed(path.drop_last())
    } else {
        path
    }
}

/// The directory above a path, if there is one. That of a name alone is the empty path, which
/// stands for the current directory; the root and the empty path have none.
pub open spec fn parent_of(path: Seq<char>) -> Option<Seq<char>> {
    let path = trimmed(path);
    if path.len() == 0 || path == seq!['/'] {
        None
    } else {
        Some(trimmed(path.take(after_last_slash(path) as int)))
    }
}

/// Law: trimming leaves the front of the path, and at least one character if there is one.
pub proof fn law_trimmed(path: Seq<char>)
    ensures
        trimmed(path).len() <= path.len(),
        trimmed(path) == path.take(trimmed(path).len() as int),
        path.len() > 0 ==> trimmed(path).len() > 0 && trimmed(path)[0] == path[0],
        trimmed(trimmed(path)) == trimmed(path),
    decreases path.len(),
{
    let start = after_last_slash(path);
    let last = path.skip(start as int);
    if path.len() > 1 && 0 < start && (last.len() == 0 || last == seq!['.']) {
        law_trimmed(path.drop_last());
        assert(trimmed(path) =~= path.take(trimmed(path).len() as int));
    } else {
        assert(path =~= path.take(path.len() as int));
    }
}

/// Law: the directory above a path has a shorter name, and is absolute if the path is.
pub proof fn law_parent_is_shorter(path: Seq<char>)
    requires
        parent_of(path) is Some,
    ensures
        parent_of(path)->0.len() < path.len(),
        path[0] == '/' ==> parent_of(path)->0.len() > 0 && parent_of(path)->0[0] == '/',
        path[0] != '/' && parent_of(path)->0.len() > 0 ==> parent_of(path)->0[0] != '/',
{
    let short = trimmed(path);
    let start = after_last_slash(short);
    let front = short.take(start as int);
    law_trimmed(path);
    law_after_last_slash(short);
    law_trimmed(front);
    if start == short.len() {
        assert(short.skip(start as int).len() == 0);
        law_trimmed(short.drop_last());
        assert(short.len() == 1);
        assert(short =~= seq!['/']);
    }
    if path[0] == '/' && start == 0 {
        assert(short[0] != '/');
    }
}

/// Law: what stands behind the last `/` has no `/` in it, and is the longest such end of the path.
pub proof fn law_after_last_slash(path: Seq<char>)
    ensures
        after_last_slash(path) <= path.len(),
        after_last_slash(path) > 0 ==> path[after_last_slash(path) - 1] == '/',
        forall|k: int| after_last_slash(path) <= k < path.len() ==> path[k] != '/',
    decreases path.len(),
{
    if path.len() != 0 && path.last() != '/' {
        law_after_last_slash(path.drop_last());
        assert forall|k: int| after_last_slash(path) <= k < path.len() implies path[k] != '/' by {
            if k < path.len() - 1 {
                assert(path.drop_last()[k] == path[k]);
            }
        }
    }
}

/// Finds the position behind the last `/`, or the start if there is none.
fn find_last_slash(path: &Vec<char>, end: usize) -> (start: usize)
    requires
        end <= path@.len(),
    ensures
        start == after_last_slash(path@.take(end as int)),
        start <= end,
{
    let mut start: usize = end;
    while start > 0 && path[start - 1] != '/'
        invariant
            start <= end <= path@.len(),
            after_last_slash(path@.take(end as int)) == after_last_slash(path@.take(start as int)),
        decreases start,
    {
        assert(path@.take(start as int).drop_last() =~= path@.take(start - 1));
        start = start - 1;
    }
    start
}

/// The characters of a string.
fn to_chars(s: &str) -> (chars: Vec<char>)
    ensures
        chars@ == s@,
{
    let mut chars: Vec<char> = Vec::new();
    for c in it: s.chars()
        invariant
            it.seq() == s@,
            chars@ == s@.take(it.index() as int),
    {
        assert(s@.take(it.index() + 1) =~= s@.take(it.index() as int).push(c));
        chars.push(c);
    }
    assert(s@.take(s@.len() as int) =~= s@);
    chars
}

/// The name of the file that a path leads to, if it names one.
pub fn file_name(path: &str) -> (name: Option<String>)
    ensures
        match name {
            Some(name) => file_name_of(path@) == Some(name@),
            None => file_name_of(path@) is None,
        },
{
    let chars = to_chars(path);
    let mut end: usize = chars.len();
    assert(chars@.take(end as int) =~= path@);
    loop
        invariant
            chars@ == path@,
            end <= chars@.len(),
            file_name_of(path@) == file_name_of(chars@.take(end as int)),
        decreases end,
    {
        let start = find_last_slash(&chars, end);
        let ghost whole = chars@.take(end as int);
        let ghost last = whole.skip(start as int);
        assert(last =~= chars@.subrange(start as int, end as int));
        if start == end || (end - start == 1 && chars[start] == '.') {
            proof {
                if start < end {
                    assert(last =~= seq!['.']);
                }
            }
            if start == 0 {
                return None;
            }
            assert(whole.take(start - 1) =~= chars@.take(start - 1));
            end = start - 1;
        } else if end - start == 2 && chars[start] == '.' && chars[start + 1] == '.' {
            assert(last =~= seq!['.', '.']);
            return None;
        } else {
            proof {
                if last == seq!['.'] {
                    assert(last[0] == '.' && last.len() == 1);
                }
                if last == seq!['.', '.'] {
                    assert(last[0] == '.' && last[1] == '.' && last.len() == 2);
                }
            }
            return Some(path.substring_char(start, end).to_owned());
        }
    }
}

/// A path below a directory. An absolute name stands for itself.
pub fn join_path(dir: &str, name: &str) -> (path: String)
    ensures
        path@ == path_join(dir@, name@),
{
    let name_len = name.unicode_len();
    if name_len > 0 && name.get_char(0) == '/' {
        return name.to_owned();
    }
    let mut path = dir.to_owned();
    let dir_len = dir.unicode_len();
    if dir_len > 0 && dir.get_char(dir_len - 1) != '/' {
        proof {
            reveal_strlit("/");
        }
        assert("/"@ =~= seq!['/']);
        path.append("/");
    }
    path.append(name);
    path
}

/// Finds the end of a path without a `/` or `/.` at its end.
fn find_trimmed(path: &Vec<char>, end: usize) -> (short: usize)
    requires
        end <= path@.len(),
    ensures
        short <= end,
        trimmed(path@.take(end as int)) == path@.take(short as int),
{
    let mut short: usize = end;
    loop
        invariant
            short <= end <= path@.len(),
            trimmed(path@.take(end as int)) == trimmed(path@.take(short as int)),
        decreases short,
    {
        let start = find_last_slash(path, short);
        let ghost whole = path@.take(short as int);
        let ghost last = whole.skip(start as int);
        if short > 1 && start > 0 && (start == short || (short - start == 1 && path[start]
            == '.')) {
            proof {
                if start < short {
                    assert(last =~= seq!['.']);
                }
                assert(whole.drop_last() =~= path@.take(short - 1));
            }
            short = short - 1;
        } else {
            proof {
                if last == seq!['.'] {
                    assert(last[0] == '.' && last.len() == 1);
                }
            }
            return short;
        }
    }
}

/// The directory above a path, if there is one.
pub fn parent_path(path: &str) -> (parent: Option<String>)
    ensures
        match parent {
            Some(parent) => parent_of(path@) == Some(parent@),
            None => parent_of(path@) is None,
        },
{
    let chars = to_chars(path);
    assert(chars@.take(chars@.len() as int) =~= path@);
    let end = find_trimmed(&chars, chars.len());
    let ghost short = chars@.take(end as int);
    if end == 0 || (end == 1 && chars[0] == '/') {
        assert(end == 1 ==> short =~= seq!['/']);
        None
    } else {
        assert(short != seq!['/']) by {
            if short == seq!['/'] {
                assert(short.len() == 1 && short[0] == '/');
            }
        }
        let start = find_last_slash(&chars, end);
        assert(short.take(start as int) =~= chars@.take(start as int));
        let cut = find_trimmed(&chars, start);
        assert(path@.subrange(0, cut as int) =~= chars@.take(cut as int));
        Some(path.substring_char(0, cut).to_owned())
    }
}

/// Several texts, one after the other, with a separator between them.
pub fn join_texts(parts: &Vec<String>, separator: &str) -> (text: String)
    ensures
        text@ == joined(parts@.map_values(|s: String| s@), separator@),
{
    let ghost all = parts@.map_values(|s: String| s@);
    let mut text = String::new();
    let mut i: usize = 0;
    assert(all.take(0) =~= Seq::empty());
    while i < parts.len()
        invariant
            all == parts@.map_values(|s: String| s@),
            i <= parts@.len(),
            text@ == joined(all.take(i as int), separator@),
        decreases parts@.len() - i,
    {
        assert(all.take(i + 1).drop_last() =~= all.take(i as int));
        if i > 0 {
            text.append(separator);
        }
        text.append(parts[i].as_str());
        assert(text@ =~= joined(all.take(i + 1), separator@));
        i = i + 1;
    }
    assert(all.take(i as int) =~= all);
    text
}

/// The number that a run of decimal digits stands for.
pub open spec fn number_of(digits: Seq<char>) -> int
    decreases digits.len(),
{
    if digits.len() == 0 {
        0
    } else {
        number_of(digits.drop_last()) * 10 + (digits.last() as int - '0' as int)
    }
}

/// Law: a decimal numeral reads back as the number it was made of. It has digits only, and does not
/// begin with a zero unless it is that of zero.
pub proof fn law_decimal_reads_back(n: nat)
    ensures
        number_of(decimal(n)) == n,
        decimal(n).len() > 0,
        forall|i: int| 0 <= i < decimal(n).len() ==> '0' <= #[trigger] decimal(n)[i] <= '9',
        decimal(n)[0] == '0' ==> decimal(n).len() == 1,
    decreases n,
{
    let digits = decimal(n);
    if n < 10 {
        assert(number_of(digits.drop_last()) == 0);
        assert(digits.last() as int == 48 + n);
    } else {
        law_decimal_reads_back(n / 10);
        let front = decimal(n / 10);
        assert(digits.drop_last() =~= front);
        assert(digits[0] == front[0]);
        assert forall|i: int| 0 <= i < digits.len() implies '0' <= #[trigger] digits[i] <= '9' by {
            if i < front.len() {
                assert(digits[i] == front[i]);
            }
        }
        if digits[0] == '0' {
            assert(front =~= seq!['0']);
            assert(number_of(front.drop_last()) == 0);
        }
    }
}

/// Law: a signed numeral has a minus sign if and only if the number is negative, and behind it stand
/// the digits of the number without its sign.
pub proof fn law_signed_decimal_reads_back(n: int)
    ensures
        signed_decimal(n).len() > 0,
        signed_decimal(n)[0] == '-' <==> n < 0,
        n < 0 ==> number_of(signed_decimal(n).drop_first()) == -n,
        n >= 0 ==> number_of(signed_decimal(n)) == n,
{
    if n < 0 {
        law_decimal_reads_back((-n) as nat);
        assert(signed_decimal(n).drop_first() =~= decimal((-n) as nat));
    } else {
        law_decimal_reads_back(n as nat);
        assert('0' <= decimal(n as nat)[0]);
    }
}

/// Law: two lists of texts joined are the one joined, a separator, and the other joined. A single
/// text is joined to itself, and no text to the empty one.
pub proof fn law_joined(first: Seq<Seq<char>>, second: Seq<Seq<char>>, separator: Seq<char>)
    ensures
        first.len() == 0 ==> joined(first, separator).len() == 0,
        first.len() == 1 ==> joined(first, separator) == first[0],
        first.len() > 0 && second.len() > 0 ==> joined(first + second, separator) == joined(
            first,
            separator,
        ) + separator + joined(second, separator),
    decreases second.len(),
{
    if first.len() > 0 && second.len() > 0 {
        let all = first + second;
        assert(all.last() == second.last());
        if second.len() == 1 {
            assert(all.drop_last() =~= first);
            assert(second.last() == second[0]);
        } else {
            let front = second.drop_last();
            assert(all.drop_last() =~= first + front);
            law_joined(first, front, separator);
            assert(joined(all, separator) =~= joined(first, separator) + separator + joined(
                second,
                separator,
            ));
        }
    }
}

proof fn lemma_last_part(dir: Seq<char>, name: Seq<char>)
    requires
        forall|i: int| 0 <= i < name.len() ==> name[i] != '/',
    ensures
        after_last_slash(dir + seq!['/'] + name) == dir.len() + 1,
        (dir + seq!['/'] + name).skip(dir.len() + 1int) == name,
        (dir + seq!['/'] + name).take(dir.len() as int) == dir,
        (dir + seq!['/'] + name).take(dir.len() + 1int) == dir.push('/'),
        after_last_slash(name) == 0,
        name.skip(0) == name,
{
    let path = dir + seq!['/'] + name;
    law_after_last_slash(path);
    law_after_last_slash(name);
    assert(path[dir.len() as int] == '/');
    let start = after_last_slash(path);
    if start > dir.len() + 1 {
        assert(path[start - 1] == name[start - 1 - dir.len() - 1]);
    }
    if after_last_slash(name) > 0 {
        assert(name[after_last_slash(name) - 1] == '/');
    }
    assert(path.skip(dir.len() + 1int) =~= name);
    assert(path.take(dir.len() as int) =~= dir);
    assert(path.take(dir.len() + 1int) =~= dir.push('/'));
    assert(name.skip(0) =~= name);
}

/// Law: the name of a file is what stands behind the last `/`, whatever the directory. A `/` or
/// `/.` behind it makes no difference, and neither `..` nor nothing is a name.
pub proof fn law_file_name(dir: Seq<char>, name: Seq<char>)
    requires
        forall|i: int| 0 <= i < name.len() ==> name[i] != '/',
    ensures
        name.len() > 0 && name != seq!['.'] && name != seq!['.', '.'] ==> {
            &&& file_name_of(name) == Some(name)
            &&& file_name_of(dir + seq!['/'] + name) == Some(name)
        },
        name == seq!['.', '.'] ==> {
            &&& file_name_of(name) is None
            &&& file_name_of(dir + seq!['/'] + name) is None
        },
        name.len() == 0 || name == seq!['.'] ==> {
            &&& file_name_of(name) is None
            &&& file_name_of(dir + seq!['/'] + name) == file_name_of(dir)
        },
{
    lemma_last_part(dir, name);
    assert(seq!['.', '.'] != seq!['.']) by {
        assert(seq!['.', '.'].len() != seq!['.'].len());
    }
}

/// Law: the path below a directory ends in the name, and leads to the file of that name. The
/// directory comes first, with one `/` behind it; the current directory is not written. A name
/// that begins with a `/` stands for itself.
pub proof fn law_path_below(dir: Seq<char>, name: Seq<char>)
    ensures
        name.len() > 0 && name[0] == '/' ==> path_join(dir, name) == name,
        !(name.len() > 0 && name[0] == '/') ==> ({
            let path = path_join(dir, name);
            let front = path.len() - name.len();
            &&& front >= dir.len()
            &&& path.skip(front) == name
            &&& path.take(dir.len() as int) == dir
            &&& dir.len() == 0 ==> front == 0
            &&& dir.len() > 0 ==> path[front - 1] == '/'
            &&& dir.len() > 0 ==> (front == dir.len() + 1 <==> dir.last() != '/')
            &&& front <= dir.len() + 1
        }),
        name.len() > 0 && name != seq!['.'] && name != seq!['.', '.'] && (forall|i: int|
            0 <= i < name.len() ==> name[i] != '/') ==> file_name_of(path_join(dir, name)) == Some(
            name,
        ),
{
    let path = path_join(dir, name);
    if !(name.len() > 0 && name[0] == '/') {
        let front = path.len() - name.len();
        assert(path.skip(front) =~= name);
        assert(path.take(dir.len() as int) =~= dir);
    }
    if name.len() > 0 && name != seq!['.'] && name != seq!['.', '.'] && (forall|i: int|
        0 <= i < name.len() ==> name[i] != '/') {
        assert(name[0] != '/');
        if dir.len() == 0 {
            law_file_name(dir, name);
            assert(path =~= name);
        } else if dir.last() == '/' {
            law_file_name(dir.drop_last(), name);
            assert(path =~= dir.drop_last() + seq!['/'] + name);
        } else {
            law_file_name(dir, name);
        }
    }
}

/// Law: a `/` or `/.` at the end of a path does not count, except that the root is a `/`. Nothing
/// else is trimmed.
pub proof fn law_what_is_trimmed(dir: Seq<char>, name: Seq<char>)
    requires
        forall|i: int| 0 <= i < name.len() ==> name[i] != '/',
    ensures
        trimmed(name) == name,
        name.len() > 0 && name != seq!['.'] ==> trimmed(dir + seq!['/'] + name) == dir + seq!['/']
            + name,
        dir.len() > 0 && (name.len() == 0 || name == seq!['.']) ==> trimmed(
            dir + seq!['/'] + name,
        ) == trimmed(dir),
        dir.len() == 0 && (name.len() == 0 || name == seq!['.']) ==> trimmed(
            dir + seq!['/'] + name,
        ) == seq!['/'],
{
    lemma_last_part(dir, name);
    let path = dir + seq!['/'] + name;
    if name.len() == 0 {
        assert(path.drop_last() =~= dir);
        assert(path =~= dir.push('/'));
        if dir.len() == 0 {
            assert(path =~= seq!['/']);
        }
    } else if name == seq!['.'] {
        assert(path.drop_last() =~= dir.push('/'));
        let short = dir.push('/');
        let empty = Seq::<char>::empty();
        lemma_last_part(dir, empty);
        assert(dir + seq!['/'] + empty =~= short);
        assert(short.skip(dir.len() + 1int) =~= empty);
        assert(trimmed(path) == trimmed(short));
        if dir.len() == 0 {
            assert(short =~= seq!['/']);
        } else {
            assert(short.drop_last() =~= dir);
        }
    }
}

/// Law: the directory above a path is the path without its last part, and above a name alone stands
/// the current directory. A `/` or `/.` at the end of the path makes no difference, and nothing
/// is above the root or the current directory.
pub proof fn law_the_directory_above(dir: Seq<char>, name: Seq<char>)
    requires
        forall|i: int| 0 <= i < name.len() ==> name[i] != '/',
    ensures
        name.len() > 0 ==> parent_of(name) == Some(Seq::<char>::empty()),
        name.len() == 0 ==> parent_of(name) is None,
        name.len() > 0 && name != seq!['.'] ==> parent_of(dir + seq!['/'] + name) == Some(
            if dir.len() == 0 {
                seq!['/']
            } else {
                trimmed(dir)
            },
        ),
        dir.len() > 0 && (name.len() == 0 || name == seq!['.']) ==> parent_of(
            dir + seq!['/'] + name,
        ) == parent_of(dir),
        dir.len() == 0 && (name.len() == 0 || name == seq!['.']) ==> parent_of(
            dir + seq!['/'] + name,
        ) is None,
{
    law_what_is_trimmed(dir, name);
    lemma_last_part(dir, name);
    let empty = Seq::<char>::empty();
    law_what_is_trimmed(dir, empty);
    law_what_is_trimmed(dir, empty);
    let path = dir + seq!['/'] + name;
    if name.len() > 0 {
        assert(name.take(0) =~= empty);
        assert(trimmed(empty) == empty);
        assert(name != seq!['/']) by {
            assert(name[0] != '/');
        }
        if name != seq!['.'] {
            assert(path != seq!['/']) by {
                assert(path.len() > 1);
            }
            assert(dir + seq!['/'] + empty =~= dir.push('/'));
        }
    }
}

} // verus!
