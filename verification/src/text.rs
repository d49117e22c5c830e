//! Case-insensitive text primitives shared by the whole engine.
//!
//! Folder names and mod names are compared case-insensitively throughout
//! (ASCII case, as the game does); the normalized form of a name is its
//! ASCII-uppercase image.

use vstd::prelude::*;

verus! {

/// ASCII-uppercase of one character: `'a'..='z'` map to `'A'..='Z'`,
/// everything else is unchanged.
pub open spec fn spec_upper_char(c: char) -> char {
    if c == 'a' {
        'A'
    } else if c == 'b' {
        'B'
    } else if c == 'c' {
        'C'
    } else if c == 'd' {
        'D'
    } else if c == 'e' {
        'E'
    } else if c == 'f' {
        'F'
    } else if c == 'g' {
        'G'
    } else if c == 'h' {
        'H'
    } else if c == 'i' {
        'I'
    } else if c == 'j' {
        'J'
    } else if c == 'k' {
        'K'
    } else if c == 'l' {
        'L'
    } else if c == 'm' {
        'M'
    } else if c == 'n' {
        'N'
    } else if c == 'o' {
        'O'
    } else if c == 'p' {
        'P'
    } else if c == 'q' {
        'Q'
    } else if c == 'r' {
        'R'
    } else if c == 's' {
        'S'
    } else if c == 't' {
        'T'
    } else if c == 'u' {
        'U'
    } else if c == 'v' {
        'V'
    } else if c == 'w' {
        'W'
    } else if c == 'x' {
        'X'
    } else if c == 'y' {
        'Y'
    } else if c == 'z' {
        'Z'
    } else {
        c
    }
}

/// ASCII-uppercase of a whole name.
pub open spec fn spec_upper(s: Seq<char>) -> Seq<char> {
    s.map_values(|c: char| spec_upper_char(c))
}

/// Two names are the same key when their uppercase images agree.
pub open spec fn spec_eq_ci(a: Seq<char>, b: Seq<char>) -> bool {
    spec_upper(a) == spec_upper(b)
}

pub fn upper_char(c: char) -> (r: char)
    ensures
        r == spec_upper_char(c),
{
    match c {
        'a' => 'A',
        'b' => 'B',
        'c' => 'C',
        'd' => 'D',
        'e' => 'E',
        'f' => 'F',
        'g' => 'G',
        'h' => 'H',
        'i' => 'I',
        'j' => 'J',
        'k' => 'K',
        'l' => 'L',
        'm' => 'M',
        'n' => 'N',
        'o' => 'O',
        'p' => 'P',
        'q' => 'Q',
        'r' => 'R',
        's' => 'S',
        't' => 'T',
        'u' => 'U',
        'v' => 'V',
        'w' => 'W',
        'x' => 'X',
        'y' => 'Y',
        'z' => 'Z',
        _ => c,
    }
}

/// Case-insensitive equality of two names.
pub fn eq_ignore_case(a: &str, b: &str) -> (r: bool)
    ensures
        r == spec_eq_ci(a@, b@),
{
    let a_len = a.unicode_len();
    let b_len = b.unicode_len();
    if a_len != b_len {
        assert(spec_upper(a@).len() != spec_upper(b@).len());
        return false;
    }
    let mut i: usize = 0;
    while i < a_len
        invariant
            i <= a_len,
            a_len == a@.len(),
            a_len == b@.len(),
            forall|j: int| 0 <= j < i ==> spec_upper(a@)[j] == spec_upper(b@)[j],
        decreases a_len - i,
    {
        let ca = upper_char(a.get_char(i));
        let cb = upper_char(b.get_char(i));
        if ca != cb {
            assert(spec_upper(a@)[i as int] != spec_upper(b@)[i as int]);
            return false;
        }
        i = i + 1;
    }
    assert(spec_upper(a@) =~= spec_upper(b@));
    true
}

/// Exact equality of two string slices.
pub fn str_eq(a: &str, b: &str) -> (r: bool)
    ensures
        r == (a@ == b@),
{
    let a_len = a.unicode_len();
    let b_len = b.unicode_len();
    if a_len != b_len {
        return false;
    }
    let mut i: usize = 0;
    while i < a_len
        invariant
            i <= a_len,
            a_len == a@.len(),
            a_len == b@.len(),
            forall|j: int| 0 <= j < i ==> a@[j] == b@[j],
        decreases a_len - i,
    {
        if a.get_char(i) != b.get_char(i) {
            return false;
        }
        i = i + 1;
    }
    assert(a@ =~= b@);
    true
}

/// Whether some element of `names` equals `name` case-insensitively.
pub open spec fn spec_contains_ci(names: Seq<Seq<char>>, name: Seq<char>) -> bool {
    exists|i: int| 0 <= i < names.len() && spec_eq_ci(names[i], name)
}

pub fn contains_ci(names: &Vec<String>, name: &str) -> (r: bool)
    ensures
        r == spec_contains_ci(names.deep_view(), name@),
{
    let mut i: usize = 0;
    while i < names.len()
        invariant
            i <= names@.len(),
            forall|j: int| 0 <= j < i ==> !spec_eq_ci(names.deep_view()[j], name@),
        decreases names@.len() - i,
    {
        if eq_ignore_case(names[i].as_str(), name) {
            assert(spec_eq_ci(names.deep_view()[i as int], name@));
            return true;
        }
        i = i + 1;
    }
    false
}

/// The ASCII-uppercase image of a name, as an owned string.
///
/// Relies on `str::to_ascii_uppercase`: ASCII letters are mapped to their
/// uppercase equivalents, all other characters are left unchanged.
#[verifier::external_body]
pub fn upper_string(s: &str) -> (r: String)
    ensures
        r@ == spec_upper(s@),
{
    s.to_ascii_uppercase()
}

/// Index of the last `sep` strictly before position `i`, if any.
pub open spec fn spec_last_sep_before(s: Seq<char>, sep: char, i: int) -> Option<int>
    decreases i,
{
    if i <= 0 || i > s.len() {
        None
    } else if s[i - 1] == sep {
        Some(i - 1)
    } else {
        spec_last_sep_before(s, sep, i - 1)
    }
}

/// The extension of a file name: the part after the last `.`, or nothing when
/// the name has no `.` or only a leading one (a dotfile has no extension).
pub open spec fn spec_extension(s: Seq<char>) -> Option<Seq<char>> {
    match spec_last_sep_before(s, '.', s.len() as int) {
        None => None,
        Some(i) => if i == 0 {
            None
        } else {
            Some(s.skip(i + 1))
        },
    }
}

/// The part of a relative path after the last `/` (the whole path when it has
/// no `/`).
pub open spec fn spec_last_component(s: Seq<char>) -> Seq<char> {
    match spec_last_sep_before(s, '/', s.len() as int) {
        None => s,
        Some(i) => s.skip(i + 1),
    }
}

/// Finds the last occurrence of `sep`, scanning from the end.
fn last_sep_index(s: &str, sep: char) -> (r: Option<usize>)
    ensures
        match r {
            Some(i) => i < s@.len() && spec_last_sep_before(s@, sep, s@.len() as int) == Some(
                i as int,
            ),
            None => spec_last_sep_before(s@, sep, s@.len() as int) is None,
        },
{
    let len = s.unicode_len();
    let mut i: usize = len;
    while i > 0
        invariant
            i <= len,
            len == s@.len(),
            spec_last_sep_before(s@, sep, len as int) == spec_last_sep_before(s@, sep, i as int),
        decreases i,
    {
        if s.get_char(i - 1) == sep {
            return Some(i - 1);
        }
        i = i - 1;
    }
    None
}

/// The extension of a file name, per `spec_extension`.
pub fn extension_of(s: &str) -> (r: Option<String>)
    ensures
        match r {
            Some(e) => spec_extension(s@) == Some(e@),
            None => spec_extension(s@) is None,
        },
{
    match last_sep_index(s, '.') {
        None => None,
        Some(i) => {
            if i == 0 {
                None
            } else {
                let len = s.unicode_len();
                Some(s.substring_char(i + 1, len).to_owned())
            }
        },
    }
}

/// The part of a relative path after the last `/`, per `spec_last_component`.
pub fn last_component(s: &str) -> (r: String)
    ensures
        r@ == spec_last_component(s@),
{
    match last_sep_index(s, '/') {
        None => s.to_owned(),
        Some(i) => {
            let len = s.unicode_len();
            s.substring_char(i + 1, len).to_owned()
        },
    }
}

/// Index of the first `sep` at or after position `i`, if any.
pub open spec fn spec_first_sep_from(s: Seq<char>, sep: char, i: int) -> Option<int>
    decreases s.len() - i,
{
    if i < 0 || i >= s.len() {
        None
    } else if s[i] == sep {
        Some(i)
    } else {
        spec_first_sep_from(s, sep, i + 1)
    }
}

/// Where `spec_first_sep_from` finds a separator, that position holds the
/// separator, lies in range, and nothing before it does.
pub proof fn lemma_first_sep_range(s: Seq<char>, sep: char, i: int)
    ensures
        match spec_first_sep_from(s, sep, i) {
            Some(j) => i <= j < s.len() && s[j] == sep,
            None => true,
        },
    decreases s.len() - i,
{
    if 0 <= i < s.len() && s[i] != sep {
        lemma_first_sep_range(s, sep, i + 1);
    }
}

/// The part of a relative path before the first `/` (the whole path when it
/// has no `/`).
pub open spec fn spec_first_component(s: Seq<char>) -> Seq<char> {
    match spec_first_sep_from(s, '/', 0) {
        None => s,
        Some(i) => s.take(i),
    }
}

/// The part of a relative path before the first `/`, per
/// `spec_first_component`.
pub fn first_component(s: &str) -> (r: String)
    ensures
        r@ == spec_first_component(s@),
{
    let len = s.unicode_len();
    let mut i: usize = 0;
    while i < len
        invariant
            i <= len,
            len == s@.len(),
            spec_first_sep_from(s@, '/', 0) == spec_first_sep_from(s@, '/', i as int),
        decreases len - i,
    {
        if s.get_char(i) == '/' {
            return s.substring_char(0, i).to_owned();
        }
        i = i + 1;
    }
    s.to_owned()
}

/// `rel` extended by one path component: `name` when `rel` is empty, else
/// `rel`, a `/`, and `name`.
pub open spec fn spec_child_rel(rel: Seq<char>, name: Seq<char>) -> Seq<char> {
    if rel.len() == 0 {
        name
    } else {
        rel + seq!['/'] + name
    }
}

pub fn child_rel(rel: &str, name: &str) -> (r: String)
    ensures
        r@ == spec_child_rel(rel@, name@),
{
    if rel.unicode_len() == 0 {
        name.to_owned()
    } else {
        proof {
            reveal_strlit("/");
        }
        let r = rel.to_owned().concat("/").concat(name);
        assert(r@ =~= rel@ + seq!['/'] + name@);
        r
    }
}

/// ASCII-lowercase of one character: `'A'..='Z'` map to `'a'..='z'`,
/// everything else is unchanged.
pub open spec fn spec_lower_char(c: char) -> char {
    if c == 'A' {
        'a'
    } else if c == 'B' {
        'b'
    } else if c == 'C' {
        'c'
    } else if c == 'D' {
        'd'
    } else if c == 'E' {
        'e'
    } else if c == 'F' {
        'f'
    } else if c == 'G' {
        'g'
    } else if c == 'H' {
        'h'
    } else if c == 'I' {
        'i'
    } else if c == 'J' {
        'j'
    } else if c == 'K' {
        'k'
    } else if c == 'L' {
        'l'
    } else if c == 'M' {
        'm'
    } else if c == 'N' {
        'n'
    } else if c == 'O' {
        'o'
    } else if c == 'P' {
        'p'
    } else if c == 'Q' {
        'q'
    } else if c == 'R' {
        'r'
    } else if c == 'S' {
        's'
    } else if c == 'T' {
        't'
    } else if c == 'U' {
        'u'
    } else if c == 'V' {
        'v'
    } else if c == 'W' {
        'w'
    } else if c == 'X' {
        'x'
    } else if c == 'Y' {
        'y'
    } else if c == 'Z' {
        'z'
    } else {
        c
    }
}

pub fn lower_char(c: char) -> (r: char)
    ensures
        r == spec_lower_char(c),
{
    match c {
        'A' => 'a',
        'B' => 'b',
        'C' => 'c',
        'D' => 'd',
        'E' => 'e',
        'F' => 'f',
        'G' => 'g',
        'H' => 'h',
        'I' => 'i',
        'J' => 'j',
        'K' => 'k',
        'L' => 'l',
        'M' => 'm',
        'N' => 'n',
        'O' => 'o',
        'P' => 'p',
        'Q' => 'q',
        'R' => 'r',
        'S' => 's',
        'T' => 't',
        'U' => 'u',
        'V' => 'v',
        'W' => 'w',
        'X' => 'x',
        'Y' => 'y',
        'Z' => 'z',
        _ => c,
    }
}

/// ASCII-lowercase of a whole name.
pub open spec fn spec_lower(s: Seq<char>) -> Seq<char> {
    s.map_values(|c: char| spec_lower_char(c))
}

/// Lexicographic order on names, by code point; a prefix comes before every
/// extension of it.
pub open spec fn spec_lex_le(a: Seq<char>, b: Seq<char>) -> bool
    decreases a.len(),
{
    if a.len() == 0 {
        true
    } else if b.len() == 0 {
        false
    } else if a[0] != b[0] {
        a[0] < b[0]
    } else {
        spec_lex_le(a.skip(1), b.skip(1))
    }
}

/// The lexicographic order is total.
pub proof fn lemma_lex_total(a: Seq<char>, b: Seq<char>)
    ensures
        spec_lex_le(a, b) || spec_lex_le(b, a),
    decreases a.len(),
{
    if a.len() > 0 && b.len() > 0 && a[0] == b[0] {
        lemma_lex_total(a.skip(1), b.skip(1));
    }
}

/// The lexicographic order is transitive.
pub proof fn lemma_lex_trans(a: Seq<char>, b: Seq<char>, c: Seq<char>)
    requires
        spec_lex_le(a, b),
        spec_lex_le(b, c),
    ensures
        spec_lex_le(a, c),
    decreases a.len(),
{
    if a.len() > 0 && b.len() > 0 && c.len() > 0 && a[0] == b[0] && b[0] == c[0] {
        lemma_lex_trans(a.skip(1), b.skip(1), c.skip(1));
    }
}

/// Lexicographic comparison of two names, per `spec_lex_le`.
pub fn str_le(a: &str, b: &str) -> (r: bool)
    ensures
        r == spec_lex_le(a@, b@),
{
    let a_len = a.unicode_len();
    let b_len = b.unicode_len();
    let mut i: usize = 0;
    proof {
        assert(a@.skip(0) =~= a@);
        assert(b@.skip(0) =~= b@);
    }
    while i < a_len && i < b_len
        invariant
            i <= a_len,
            i <= b_len,
            a_len == a@.len(),
            b_len == b@.len(),
            spec_lex_le(a@, b@) == spec_lex_le(a@.skip(i as int), b@.skip(i as int)),
        decreases a_len - i,
    {
        let ca = a.get_char(i);
        let cb = b.get_char(i);
        proof {
            assert(a@.skip(i as int)[0] == a@[i as int]);
            assert(b@.skip(i as int)[0] == b@[i as int]);
            assert(a@.skip(i as int).skip(1) =~= a@.skip(i + 1));
            assert(b@.skip(i as int).skip(1) =~= b@.skip(i + 1));
        }
        if ca != cb {
            return ca < cb;
        }
        i = i + 1;
    }
    proof {
        if i >= a_len {
            assert(a@.skip(i as int).len() == 0);
        } else {
            assert(b@.skip(i as int).len() == 0);
            assert(a@.skip(i as int).len() > 0);
        }
    }
    a_len <= b_len
}

/// The decimal digit character for `d`.
pub open spec fn spec_digit(d: int) -> char {
    if d == 0 {
        '0'
    } else if d == 1 {
        '1'
    } else if d == 2 {
        '2'
    } else if d == 3 {
        '3'
    } else if d == 4 {
        '4'
    } else if d == 5 {
        '5'
    } else if d == 6 {
        '6'
    } else if d == 7 {
        '7'
    } else if d == 8 {
        '8'
    } else {
        '9'
    }
}

/// The decimal rendering of a non-negative integer, without leading zeros.
pub open spec fn spec_decimal(n: int) -> Seq<char>
    decreases n,
{
    if n < 0 {
        Seq::empty()
    } else if n < 10 {
        seq![spec_digit(n)]
    } else {
        spec_decimal(n / 10).push(spec_digit(n % 10))
    }
}

fn digit_str(d: u32) -> (r: &'static str)
    requires
        d < 10,
    ensures
        r@ == seq![spec_digit(d as int)],
{
    proof {
        reveal_strlit("0");
        reveal_strlit("1");
        reveal_strlit("2");
        reveal_strlit("3");
        reveal_strlit("4");
        reveal_strlit("5");
        reveal_strlit("6");
        reveal_strlit("7");
        reveal_strlit("8");
        reveal_strlit("9");
    }
    let r = match d {
        0 => "0",
        1 => "1",
        2 => "2",
        3 => "3",
        4 => "4",
        5 => "5",
        6 => "6",
        7 => "7",
        8 => "8",
        _ => "9",
    };
    assert(r@ =~= seq![spec_digit(d as int)]);
    r
}

/// Renders `n` in decimal, per `spec_decimal`.
pub fn u32_to_dec(n: u32) -> (r: String)
    ensures
        r@ == spec_decimal(n as int),
    decreases n,
{
    if n < 10 {
        digit_str(n).to_owned()
    } else {
        let mut s = u32_to_dec(n / 10);
        s.append(digit_str(n % 10));
        assert(s@ =~= spec_decimal(n as int));
        s
    }
}

} // verus!
