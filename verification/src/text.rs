//! Text rules of the server: project ids, display names, bearer tokens,
//! decimal numbers, and the file extensions of uploaded samples.
use vstd::prelude::*;

verus! {

/// Appends one character to a string (std `String::push`).
#[verifier::external_body]
pub(crate) fn push_char(s: &mut String, c: char)
    ensures
        final(s)@ == old(s)@.push(c),
{
    s.push(c);
}

/// Compares two string slices (std `str == str`): equal exactly when they
/// hold the same characters.
#[verifier::external_body]
pub(crate) fn str_eq(a: &str, b: &str) -> (res: bool)
    ensures
        res == (a@ == b@),
{
    a == b
}

/// The characters of a string slice, in order.
pub(crate) fn chars_of(value: &str) -> (out: Vec<char>)
    ensures
        out@ == value@,
{
    let mut out: Vec<char> = Vec::new();
    for c in it: value.chars()
        invariant
            out@ == it.seq().take(it.index() as int),
            it.seq() == value@,
    {
        out.push(c);
    }
    out
}

/// The string made of the characters `s[lo..hi]`.
pub(crate) fn string_of(s: &Vec<char>, lo: usize, hi: usize) -> (out: String)
    requires
        lo <= hi <= s@.len(),
    ensures
        out@ == s@.subrange(lo as int, hi as int),
{
    let mut out = String::new();
    let mut i = lo;
    while i < hi
        invariant
            lo <= i <= hi <= s@.len(),
            out@ == s@.subrange(lo as int, i as int),
        decreases hi - i,
    {
        push_char(&mut out, s[i]);
        i = i + 1;
        assert(out@ =~= s@.subrange(lo as int, i as int));
    }
    out
}

/// `char::is_control`: the general category Cc, which is U+0000..=U+001F
/// and U+007F..=U+009F.
pub open spec fn spec_is_control(c: char) -> bool {
    (c as u32) <= 0x1F || (0x7F <= (c as u32) && (c as u32) <= 0x9F)
}

/// `char::is_whitespace`: the Unicode `White_Space` property.
pub open spec fn spec_is_whitespace(c: char) -> bool {
    let u = c as u32;
    (0x09 <= u && u <= 0x0D) || u == 0x20 || u == 0x85 || u == 0xA0 || u == 0x1680
        || (0x2000 <= u && u <= 0x200A) || u == 0x2028 || u == 0x2029 || u == 0x202F
        || u == 0x205F || u == 0x3000
}

/// An ASCII letter or digit, `-` or `_`: the characters of a project id.
pub open spec fn spec_is_id_char(c: char) -> bool {
    ('0' <= c && c <= '9') || ('A' <= c && c <= 'Z') || ('a' <= c && c <= 'z') || c == '-' || c == '_'
}

pub fn is_control(c: char) -> (res: bool)
    ensures
        res == spec_is_control(c),
{
    let u = c as u32;
    u <= 0x1F || (0x7F <= u && u <= 0x9F)
}

pub fn is_whitespace(c: char) -> (res: bool)
    ensures
        res == spec_is_whitespace(c),
{
    let u = c as u32;
    (0x09 <= u && u <= 0x0D) || u == 0x20 || u == 0x85 || u == 0xA0 || u == 0x1680
        || (0x2000 <= u && u <= 0x200A) || u == 0x2028 || u == 0x2029 || u == 0x202F
        || u == 0x205F || u == 0x3000
}

pub fn is_id_char(c: char) -> (res: bool)
    ensures
        res == spec_is_id_char(c),
{
    ('0' <= c && c <= '9') || ('A' <= c && c <= 'Z') || ('a' <= c && c <= 'z') || c == '-' || c == '_'
}

/// At most the first `max` elements of `s`.
pub open spec fn take_at_most<A>(s: Seq<A>, max: nat) -> Seq<A> {
    if s.len() <= max {
        s
    } else {
        s.take(max as int)
    }
}

/// `s` without its leading whitespace.
pub open spec fn trim_start(s: Seq<char>) -> Seq<char>
    decreases s.len(),
{
    if s.len() > 0 && spec_is_whitespace(s[0]) {
        trim_start(s.drop_first())
    } else {
        s
    }
}

/// `s` without its trailing whitespace.
pub open spec fn trim_end(s: Seq<char>) -> Seq<char>
    decreases s.len(),
{
    if s.len() > 0 && spec_is_whitespace(s.last()) {
        trim_end(s.drop_last())
    } else {
        s
    }
}

/// `str::trim`: `s` without leading and trailing whitespace.
pub open spec fn trim(s: Seq<char>) -> Seq<char> {
    trim_end(trim_start(s))
}

/// What `valid_project_id` accepts: 1 to 64 characters, each an ASCII
/// letter or digit, `-` or `_`.
pub open spec fn spec_valid_project_id(s: Seq<char>) -> bool {
    0 < s.len() <= 64 && forall|i: int| 0 <= i < s.len() ==> #[trigger] spec_is_id_char(s[i])
}

/// What `safe_id` keeps of a string: its project-id characters, at most 64.
pub open spec fn spec_safe_id(s: Seq<char>) -> Seq<char> {
    take_at_most(s.filter(id_chars()), 64)
}

/// The predicate that selects project-id characters.
pub open spec fn id_chars() -> spec_fn(char) -> bool {
    |c: char| spec_is_id_char(c)
}

/// The predicate that selects all but control characters.
pub open spec fn non_control_chars() -> spec_fn(char) -> bool {
    |c: char| !spec_is_control(c)
}

/// What `clean_name` makes of a string: its characters but the control
/// characters, at most `max` of them, trimmed.
pub open spec fn spec_clean_name(s: Seq<char>, max: nat) -> Seq<char> {
    trim(take_at_most(s.filter(non_control_chars()), max))
}

proof fn lemma_filter_step(s: Seq<char>, i: int, p: spec_fn(char) -> bool)
    requires
        0 <= i < s.len(),
    ensures
        s.take(i + 1).filter(p) == if p(s[i]) {
            s.take(i).filter(p).push(s[i])
        } else {
            s.take(i).filter(p)
        },
{
    reveal_with_fuel(Seq::<_>::filter, 1);
    assert(s.take(i + 1).drop_last() =~= s.take(i));
}

proof fn lemma_take_at_most_push<A>(s: Seq<A>, x: A, max: nat)
    ensures
        take_at_most(s.push(x), max) == if take_at_most(s, max).len() < max {
            take_at_most(s, max).push(x)
        } else {
            take_at_most(s, max)
        },
{
    if s.len() + 1 <= max {
    } else if s.len() < max {
        assert(s.len() + 1 > max);
    } else {
        assert(s.push(x).take(max as int) =~= s.take(max as int));
    }
}

pub fn valid_project_id(value: &str) -> (res: bool)
    ensures
        res == spec_valid_project_id(value@),
{
    let chars = chars_of(value);
    if chars.len() == 0 || chars.len() > 64 {
        return false;
    }
    let mut i: usize = 0;
    while i < chars.len()
        invariant
            i <= chars@.len(),
            chars@ == value@,
            forall|j: int| 0 <= j < i ==> #[trigger] spec_is_id_char(chars@[j]),
        decreases chars@.len() - i,
    {
        if !is_id_char(chars[i]) {
            return false;
        }
        i = i + 1;
    }
    true
}

pub fn safe_id(value: &str) -> (res: String)
    ensures
        res@ == spec_safe_id(value@),
{
    let chars = chars_of(value);
    let mut out = String::new();
    let mut kept: usize = 0;
    let mut i: usize = 0;
    assert(chars@.take(0).filter(id_chars()) =~= Seq::<char>::empty());
    while i < chars.len()
        invariant
            i <= chars@.len(),
            chars@ == value@,
            out@ == take_at_most(chars@.take(i as int).filter(id_chars()), 64),
            kept as nat == out@.len(),
        decreases chars@.len() - i,
    {
        let c = chars[i];
        proof {
            lemma_filter_step(chars@, i as int, id_chars());
            lemma_take_at_most_push(chars@.take(i as int).filter(id_chars()), c, 64);
        }
        let ghost prev = chars@.take(i as int).filter(id_chars());
        if is_id_char(c) && kept < 64 {
            push_char(&mut out, c);
            kept = kept + 1;
        }
        proof {
            if spec_is_id_char(c) {
                assert(chars@.take(i + 1).filter(id_chars()) == prev.push(c));
            } else {
                assert(chars@.take(i + 1).filter(id_chars()) == prev);
            }
        }
        i = i + 1;
    }
    assert(chars@.take(chars@.len() as int) =~= chars@);
    out
}

proof fn lemma_trim_start(s: Seq<char>, lo: int)
    requires
        0 <= lo <= s.len(),
        forall|j: int| 0 <= j < lo ==> spec_is_whitespace(#[trigger] s[j]),
        lo == s.len() || !spec_is_whitespace(s[lo]),
    ensures
        trim_start(s) == s.skip(lo),
    decreases lo,
{
    if lo == 0 {
        assert(s.skip(0) =~= s);
    } else {
        assert(spec_is_whitespace(s[0]));
        let t = s.drop_first();
        assert forall|j: int| 0 <= j < lo - 1 implies spec_is_whitespace(#[trigger] t[j]) by {
            assert(t[j] == s[j + 1]);
        }
        if lo - 1 < t.len() {
            assert(t[lo - 1] == s[lo]);
        }
        lemma_trim_start(t, lo - 1);
        assert(t.skip(lo - 1) =~= s.skip(lo));
    }
}

proof fn lemma_trim_end(s: Seq<char>, hi: int)
    requires
        0 <= hi <= s.len(),
        forall|j: int| hi <= j < s.len() ==> spec_is_whitespace(#[trigger] s[j]),
        hi == 0 || !spec_is_whitespace(s[hi - 1]),
    ensures
        trim_end(s) == s.take(hi),
    decreases s.len() - hi,
{
    if hi == s.len() {
        if s.len() > 0 {
            assert(!spec_is_whitespace(s.last()));
        }
        assert(s.take(hi) =~= s);
    } else {
        assert(spec_is_whitespace(s.last()));
        let t = s.drop_last();
        assert forall|j: int| hi <= j < t.len() implies spec_is_whitespace(#[trigger] t[j]) by {
            assert(t[j] == s[j]);
        }
        if hi > 0 {
            assert(t[hi - 1] == s[hi - 1]);
        }
        lemma_trim_end(t, hi);
        assert(t.take(hi) =~= s.take(hi));
    }
}

/// `trim_start` drops a prefix, and what it leaves does not start with
/// whitespace.
proof fn lemma_trim_start_shape(s: Seq<char>)
    ensures
        exists|k: int| 0 <= k <= s.len() && trim_start(s) == s.skip(k),
        trim_start(s).len() > 0 ==> !spec_is_whitespace(trim_start(s)[0]),
    decreases s.len(),
{
    if s.len() > 0 && spec_is_whitespace(s[0]) {
        let t = s.drop_first();
        lemma_trim_start_shape(t);
        let k = choose|k: int| 0 <= k <= t.len() && trim_start(t) == t.skip(k);
        assert(t.skip(k) =~= s.skip(k + 1));
    } else {
        assert(s.skip(0) =~= s);
    }
}

/// `trim_end` drops a suffix, and what it leaves does not end with
/// whitespace.
proof fn lemma_trim_end_shape(s: Seq<char>)
    ensures
        exists|k: int| 0 <= k <= s.len() && trim_end(s) == s.take(k),
        trim_end(s).len() > 0 ==> !spec_is_whitespace(trim_end(s).last()),
    decreases s.len(),
{
    if s.len() > 0 && spec_is_whitespace(s.last()) {
        let t = s.drop_last();
        lemma_trim_end_shape(t);
        let k = choose|k: int| 0 <= k <= t.len() && trim_end(t) == t.take(k);
        assert(t.take(k) =~= s.take(k));
    } else {
        assert(s.take(s.len() as int) =~= s);
    }
}

/// A filter that keeps every element changes nothing.
pub(crate) proof fn lemma_filter_keeps_all<A>(s: Seq<A>, p: spec_fn(A) -> bool)
    requires
        forall|i: int| 0 <= i < s.len() ==> p(#[trigger] s[i]),
    ensures
        s.filter(p) == s,
    decreases s.len(),
{
    reveal_with_fuel(Seq::<_>::filter, 1);
    if s.len() > 0 {
        let t = s.drop_last();
        assert forall|i: int| 0 <= i < t.len() implies p(#[trigger] t[i]) by {
            assert(t[i] == s[i]);
        }
        lemma_filter_keeps_all(t, p);
        assert(t.push(s.last()) =~= s);
    } else {
        assert(s.filter(p) =~= s);
    }
}

/// A valid project id is stored under its own name: `safe_id` keeps every
/// one of its characters.
pub proof fn lemma_valid_id_is_safe(s: Seq<char>)
    requires
        spec_valid_project_id(s),
    ensures
        spec_safe_id(s) == s,
{
    lemma_filter_keeps_all(s, id_chars());
}

/// What `safe_id` keeps is a valid project id, unless nothing is left.
pub proof fn lemma_safe_id_is_valid(s: Seq<char>)
    ensures
        spec_safe_id(s).len() > 0 ==> spec_valid_project_id(spec_safe_id(s)),
{
    let f = s.filter(id_chars());
    let t = spec_safe_id(s);
    assert forall|i: int| 0 <= i < t.len() implies #[trigger] spec_is_id_char(t[i]) by {
        assert(t[i] == f[i]);
        s.lemma_filter_pred(id_chars(), i);
    }
}

/// What `clean_name` gives has at most `max` characters, no control
/// character and no leading or trailing whitespace; cleaning it again
/// changes nothing.
pub proof fn lemma_clean_name_is_clean(s: Seq<char>, max: nat)
    ensures
        spec_clean_name(s, max).len() <= max,
        forall|i: int|
            0 <= i < spec_clean_name(s, max).len() ==> !spec_is_control(#[trigger] spec_clean_name(s, max)[i]),
        spec_clean_name(s, max).len() > 0 ==> !spec_is_whitespace(spec_clean_name(s, max)[0])
            && !spec_is_whitespace(spec_clean_name(s, max).last()),
        spec_clean_name(spec_clean_name(s, max), max) == spec_clean_name(s, max),
{
    let f = s.filter(non_control_chars());
    let t = take_at_most(f, max);
    let c = spec_clean_name(s, max);
    assert forall|i: int| 0 <= i < t.len() implies !spec_is_control(#[trigger] t[i]) by {
        assert(t[i] == f[i]);
        s.lemma_filter_pred(non_control_chars(), i);
    }
    lemma_trim_start_shape(t);
    let ts = trim_start(t);
    let k1 = choose|k: int| 0 <= k <= t.len() && ts == t.skip(k);
    lemma_trim_end_shape(ts);
    let k2 = choose|k: int| 0 <= k <= ts.len() && trim_end(ts) == ts.take(k);
    assert(c == ts.take(k2));
    assert forall|i: int| 0 <= i < c.len() implies !spec_is_control(#[trigger] c[i]) by {
        assert(c[i] == t[i + k1]);
    }
    if c.len() > 0 {
        assert(c[0] == ts[0]);
    }
    lemma_filter_keeps_all(c, non_control_chars());
    assert(take_at_most(c, max) == c);
    assert(trim_start(c) == c);
    assert(trim_end(c) == c);
}

/// The bounds `lo..hi` of the trimmed part of `s`.
fn trim_bounds(s: &Vec<char>) -> (bounds: (usize, usize))
    ensures
        bounds.0 <= bounds.1 <= s@.len(),
        trim(s@) == s@.subrange(bounds.0 as int, bounds.1 as int),
{
    let n = s.len();
    let mut lo: usize = 0;
    while lo < n && is_whitespace(s[lo])
        invariant
            lo <= n == s@.len(),
            forall|j: int| 0 <= j < lo ==> spec_is_whitespace(#[trigger] s@[j]),
        decreases n - lo,
    {
        lo = lo + 1;
    }
    let mut hi: usize = n;
    while hi > lo && is_whitespace(s[hi - 1])
        invariant
            lo <= hi <= n == s@.len(),
            forall|j: int| hi <= j < n ==> spec_is_whitespace(#[trigger] s@[j]),
        decreases hi - lo,
    {
        hi = hi - 1;
    }
    proof {
        lemma_trim_start(s@, lo as int);
        let t = s@.skip(lo as int);
        assert forall|j: int| hi - lo <= j < t.len() implies spec_is_whitespace(#[trigger] t[j]) by {
            assert(t[j] == s@[j + lo]);
        }
        if hi > lo {
            assert(t[hi - lo - 1] == s@[hi - 1]);
        }
        lemma_trim_end(t, hi - lo);
        assert(t.take(hi - lo) =~= s@.subrange(lo as int, hi as int));
    }
    (lo, hi)
}

pub fn clean_name(value: &str, max: usize) -> (res: String)
    ensures
        res@ == spec_clean_name(value@, max as nat),
{
    let chars = chars_of(value);
    let mut kept: Vec<char> = Vec::new();
    let mut i: usize = 0;
    assert(chars@.take(0).filter(non_control_chars()) =~= Seq::<char>::empty());
    while i < chars.len()
        invariant
            i <= chars@.len(),
            chars@ == value@,
            kept@ == take_at_most(chars@.take(i as int).filter(non_control_chars()), max as nat),
        decreases chars@.len() - i,
    {
        let c = chars[i];
        let ghost prev = chars@.take(i as int).filter(non_control_chars());
        proof {
            lemma_filter_step(chars@, i as int, non_control_chars());
            lemma_take_at_most_push(prev, c, max as nat);
        }
        if !is_control(c) && kept.len() < max {
            kept.push(c);
        }
        proof {
            if !spec_is_control(c) {
                assert(chars@.take(i + 1).filter(non_control_chars()) == prev.push(c));
            } else {
                assert(chars@.take(i + 1).filter(non_control_chars()) == prev);
            }
        }
        i = i + 1;
    }
    assert(chars@.take(chars@.len() as int) =~= chars@);
    let (lo, hi) = trim_bounds(&kept);
    string_of(&kept, lo, hi)
}

/// What `bearer_token` makes of an `Authorization` header value: the rest
/// after `Bearer ` or `bearer `, trimmed.
pub open spec fn spec_bearer_token(v: Seq<char>) -> Option<Seq<char>> {
    if v.len() >= 7 && (v[0] == 'B' || v[0] == 'b') && v[1] == 'e' && v[2] == 'a' && v[3] == 'r'
        && v[4] == 'e' && v[5] == 'r' && v[6] == ' ' {
        Some(trim(v.skip(7)))
    } else {
        None
    }
}

pub fn bearer_token(value: &str) -> (token: Option<String>)
    ensures
        token matches Some(t) ==> spec_bearer_token(value@) == Some(t@),
        token is None <==> spec_bearer_token(value@) is None,
{
    let chars = chars_of(value);
    if chars.len() >= 7 && (chars[0] == 'B' || chars[0] == 'b') && chars[1] == 'e' && chars[2] == 'a'
        && chars[3] == 'r' && chars[4] == 'e' && chars[5] == 'r' && chars[6] == ' ' {
        let mut rest: Vec<char> = Vec::new();
        let mut i: usize = 7;
        while i < chars.len()
            invariant
                7 <= i <= chars@.len(),
                rest@ == chars@.subrange(7, i as int),
            decreases chars@.len() - i,
        {
            rest.push(chars[i]);
            i = i + 1;
            assert(rest@ =~= chars@.subrange(7, i as int));
        }
        assert(rest@ =~= value@.skip(7));
        let (lo, hi) = trim_bounds(&rest);
        Some(string_of(&rest, lo, hi))
    } else {
        None
    }
}

/// Whether a role may change a project: `owner` or `editor`.
pub fn can_edit(role: &str) -> (res: bool)
    ensures
        res == (role@ == "owner"@ || role@ == "editor"@),
{
    str_eq(role, "owner") || str_eq(role, "editor")
}

/// The character of a decimal digit.
pub open spec fn digit_char(d: nat) -> char {
    (48 + d) as char
}

/// The decimal representation of `n`, as `to_string` writes it.
pub open spec fn decimal(n: nat) -> Seq<char>
    decreases n,
{
    if n < 10 {
        seq![digit_char(n)]
    } else {
        decimal(n / 10).push(digit_char(n % 10))
    }
}

/// Appends the decimal representation of `n` to `s`.
pub fn push_decimal(s: &mut String, n: u128)
    ensures
        final(s)@ == old(s)@ + decimal(n as nat),
    decreases n,
{
    if n >= 10 {
        push_decimal(s, n / 10);
    }
    let d = (n % 10) as u8;
    let c = (48u8 + d) as char;
    assert(c == digit_char((n % 10) as nat));
    push_char(s, c);
    proof {
        if n >= 10 {
            assert(old(s)@ + decimal(n as nat) =~= old(s)@ + decimal((n / 10) as nat) + seq![c]);
        } else {
            assert(old(s)@ + decimal(n as nat) =~= old(s)@ + seq![c]);
        }
    }
}

/// The ASCII lowercase of a character: `A`..`Z` become `a`..`z`.
pub open spec fn spec_ascii_lower(c: char) -> char {
    if 'A' <= c && c <= 'Z' {
        ((c as u32) + 32) as char
    } else {
        c
    }
}

/// `str::to_ascii_lowercase`.
pub open spec fn ascii_lowercase(s: Seq<char>) -> Seq<char> {
    s.map_values(|c: char| spec_ascii_lower(c))
}

/// The file types a sample upload may keep as its extension.
pub open spec fn is_sample_extension(e: Seq<char>) -> bool {
    e == "wav"@ || e == "mp3"@ || e == "m4a"@ || e == "aac"@ || e == "ogg"@ || e == "flac"@ || e == "webm"@
}

/// The extension a stored sample gets, from the extension of the uploaded
/// file's name: that extension in lowercase when it is an accepted audio
/// type, `bin` otherwise.
pub open spec fn spec_sample_extension(ext: Option<Seq<char>>) -> Seq<char> {
    match ext {
        Some(e) => if is_sample_extension(ascii_lowercase(e)) {
            ascii_lowercase(e)
        } else {
            "bin"@
        },
        None => "bin"@,
    }
}

pub fn ascii_lower(c: char) -> (res: char)
    ensures
        res == spec_ascii_lower(c),
{
    if 'A' <= c && c <= 'Z' {
        let b = (c as u8) + 32;
        b as char
    } else {
        c
    }
}

/// The ASCII lowercase of a string.
pub fn to_ascii_lowercase(value: &str) -> (res: String)
    ensures
        res@ == ascii_lowercase(value@),
{
    let chars = chars_of(value);
    let mut out = String::new();
    let mut i: usize = 0;
    while i < chars.len()
        invariant
            i <= chars@.len(),
            chars@ == value@,
            out@ == ascii_lowercase(chars@.take(i as int)),
        decreases chars@.len() - i,
    {
        let c = ascii_lower(chars[i]);
        push_char(&mut out, c);
        i = i + 1;
        assert(out@ =~= ascii_lowercase(chars@.take(i as int)));
    }
    assert(chars@.take(chars@.len() as int) =~= chars@);
    out
}

/// A file name that is one plain path component on every platform: it
/// holds no `/`, `\` or `:`, and it is not `..`.
pub open spec fn is_plain_file_name(s: Seq<char>) -> bool {
    &&& !(s.len() == 2 && s[0] == '.' && s[1] == '.')
    &&& forall|i: int| 0 <= i < s.len() ==> #[trigger] s[i] != '/' && s[i] != '\\' && s[i] != ':'
}

/// `p` is the position of the last `.` of `s`.
pub open spec fn is_last_dot(s: Seq<char>, p: int) -> bool {
    0 <= p < s.len() && s[p] == '.' && forall|j: int| p < j < s.len() ==> #[trigger] s[j] != '.'
}

/// The extension of a plain file name, as `Path::extension` documents it:
/// what follows its last `.`; none where the name has no `.`, or its only
/// `.` is its first character.
pub open spec fn spec_file_extension(s: Seq<char>) -> Option<Seq<char>> {
    if exists|p: int| is_last_dot(s, p) && p >= 1 {
        let p = choose|p: int| is_last_dot(s, p) && p >= 1;
        Some(s.skip(p + 1))
    } else {
        None
    }
}

/// The extension of a file name (std `Path::extension`, then `to_str`,
/// which cannot fail on a name that came from a `str`). For a plain file
/// name the claim is what the documentation of `Path::extension` gives:
/// the part after the last `.`, none where there is no `.` or the name
/// starts with its only `.`. For other names, where the platform's rules
/// for splitting a path into components decide which component is the file
/// name, the claim is only that an extension holds no `.` and stands in the
/// name right after a `.`.
#[verifier::external_body]
fn path_extension(filename: &str) -> (ext: Option<String>)
    ensures
        ext matches Some(e) ==> !e@.contains('.') && exists|i: int|
            1 <= i && i + e@.len() <= filename@.len() && filename@[i - 1] == '.'
                && #[trigger] filename@.subrange(i, i + e@.len()) == e@,
        is_plain_file_name(filename@) ==> match ext {
            Some(e) => spec_file_extension(filename@) == Some(e@),
            None => spec_file_extension(filename@) is None,
        },
{
    std::path::Path::new(filename).extension().and_then(|e| e.to_str()).map(|e| e.to_string())
}

/// The stored extension for an uploaded sample, given the extension of its
/// file name.
pub fn sample_extension(ext: Option<&str>) -> (res: String)
    ensures
        res@ == spec_sample_extension(match ext {
            Some(e) => Some(e@),
            None => None,
        }),
{
    match ext {
        Some(e) => {
            let lower = to_ascii_lowercase(e);
            let l = lower.as_str();
            if str_eq(l, "wav") || str_eq(l, "mp3") || str_eq(l, "m4a") || str_eq(l, "aac")
                || str_eq(l, "ogg") || str_eq(l, "flac") || str_eq(l, "webm") {
                lower
            } else {
                "bin".to_owned()
            }
        },
        None => "bin".to_owned(),
    }
}

proof fn lemma_bin_is_no_sample_extension()
    ensures
        !is_sample_extension("bin"@),
{
    reveal_strlit("bin");
    reveal_strlit("wav");
    reveal_strlit("mp3");
    reveal_strlit("m4a");
    reveal_strlit("aac");
    reveal_strlit("ogg");
    reveal_strlit("flac");
    reveal_strlit("webm");
    assert("bin"@[0] != "wav"@[0]);
    assert("bin"@[0] != "mp3"@[0]);
    assert("bin"@[0] != "m4a"@[0]);
    assert("bin"@[0] != "aac"@[0]);
    assert("bin"@[0] != "ogg"@[0]);
    assert("bin"@.len() != "flac"@.len());
    assert("bin"@.len() != "webm"@.len());
}

/// The extension under which an uploaded file is stored: the extension of
/// its name, lowercased, if it is an accepted audio type, else `bin`.
pub fn safe_extension(filename: &str) -> (res: String)
    ensures
        is_plain_file_name(filename@) ==> res@ == spec_sample_extension(spec_file_extension(filename@)),
        is_sample_extension(res@) || res@ == "bin"@,
        is_sample_extension(res@) ==> exists|i: int|
            1 <= i && i + res@.len() <= filename@.len() && filename@[i - 1] == '.'
                && ascii_lowercase(#[trigger] filename@.subrange(i, i + res@.len())) == res@,
{
    let ext = path_extension(filename);
    proof {
        lemma_bin_is_no_sample_extension();
    }
    match ext {
        Some(e) => {
            let res = sample_extension(Some(e.as_str()));
            proof {
                lemma_bin_is_no_sample_extension();
                if is_sample_extension(res@) {
                    assert(res@ == ascii_lowercase(e@));
                    assert(res@.len() == e@.len());
                    let i = choose|i: int|
                        1 <= i && i + e@.len() <= filename@.len() && filename@[i - 1] == '.'
                            && #[trigger] filename@.subrange(i, i + e@.len()) == e@;
                    assert(ascii_lowercase(filename@.subrange(i, i + res@.len())) == res@);
                }
            }
            res
        },
        None => sample_extension(None),
    }
}

} // verus!
