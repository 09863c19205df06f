//! Input validation: file keys, access tokens, page lists and the node
//! ids and file keys embedded in share URLs.
//!
//! The accepted shapes are fixed character patterns, so they are written
//! out as character-level specifications and checked directly.

use vstd::prelude::*;
use vstd::string::{StringSliceAdditionalSpecFns, StrSliceExecFns};
use crate::strutil::{contains_seq, contains_str, is_unicode_space, match_at};

verus! {

broadcast use vstd::string::group_string_axioms;

/// A rejected input: which field was wrong and a human-readable reason.
#[derive(Debug, Clone, PartialEq)]
pub struct ValidationError {
    pub field: String,
    pub message: String,
}

pub open spec fn is_ascii_alnum(c: char) -> bool {
    ||| 'a' <= c <= 'z'
    ||| 'A' <= c <= 'Z'
    ||| '0' <= c <= '9'
}

pub open spec fn is_ascii_digit_char(c: char) -> bool {
    '0' <= c <= '9'
}

/// A well-formed file key: at least 22 characters, all alphanumeric.
pub open spec fn valid_file_key(s: Seq<char>) -> bool {
    s.len() >= 22 && forall|i: int| 0 <= i < s.len() ==> is_ascii_alnum(#[trigger] s[i])
}

fn all_alnum(s: &str) -> (r: bool)
    ensures
        r == forall|i: int| 0 <= i < s@.len() ==> is_ascii_alnum(#[trigger] s@[i]),
{
    let n = s.unicode_len();
    let mut i: usize = 0;
    while i < n
        invariant
            0 <= i <= n,
            n == s@.len(),
            forall|j: int| 0 <= j < i ==> is_ascii_alnum(#[trigger] s@[j]),
        decreases n - i,
    {
        let c = s.get_char(i);
        if !(('a' <= c && c <= 'z') || ('A' <= c && c <= 'Z') || ('0' <= c && c <= '9')) {
            return false;
        }
        i = i + 1;
    }
    true
}

/// Accept exactly the well-formed file keys; an empty key and a malformed
/// key are told apart by the error's field message.
pub fn validate_file_key(file_key: &str) -> (r: Result<(), ValidationError>)
    ensures
        r is Ok <==> valid_file_key(file_key@),
        r matches Err(e) ==> e.field@ == "file_key"@,
        r matches Err(e) ==> (file_key@.len() == 0 ==> e.message@ == "File key cannot be empty"@),
{
    if file_key.unicode_len() == 0 {
        return Err(
            ValidationError {
                field: "file_key".to_owned(),
                message: "File key cannot be empty".to_owned(),
            },
        );
    }
    if file_key.unicode_len() < 22 || !all_alnum(file_key) {
        let mut message: String = "Invalid file key format: '".to_owned();
        message.append(file_key);
        message.append("'. Expected alphanumeric string of at least 22 characters");
        return Err(ValidationError { field: "file_key".to_owned(), message });
    }
    Ok(())
}

/// Accept exactly tokens that start with `figd_` and are at least ten
/// bytes long; the three rejections — empty input, missing prefix, too
/// short — each carry their own message.
pub fn validate_token(token: &str) -> (r: Result<(), ValidationError>)
    ensures
        r is Ok <==> (token@.len() >= 5 && token@.subrange(0, 5) == "figd_"@ && (
        token.spec_bytes().len() as usize) >= 10),
        r matches Err(e) ==> e.field@ == "token"@,
        r matches Err(e) ==> e.message@ == (if token@.len() == 0 {
            "Token cannot be empty"@
        } else if !(token@.len() >= 5 && token@.subrange(0, 5) == "figd_"@) {
            "Token should start with 'figd_'. Get your token at https://www.figma.com/settings"@
        } else {
            "Token is too short"@
        }),
{
    if token.unicode_len() == 0 {
        return Err(
            ValidationError {
                field: "token".to_owned(),
                message: "Token cannot be empty".to_owned(),
            },
        );
    }
    proof {
        reveal_strlit("figd_");
    }
    if !crate::strutil::starts_with_str(token, "figd_") {
        return Err(
            ValidationError {
                field: "token".to_owned(),
                message:
                    "Token should start with 'figd_'. Get your token at https://www.figma.com/settings".to_owned(),
            },
        );
    }
    if token.len() < 10 {
        return Err(
            ValidationError { field: "token".to_owned(), message: "Token is too short".to_owned() },
        );
    }
    Ok(())
}

/// How many whitespace characters a string starts with.
pub open spec fn ws_prefix_len(s: Seq<char>) -> int
    decreases s.len(),
{
    if s.len() > 0 && is_unicode_space(s[0]) {
        1 + ws_prefix_len(s.skip(1))
    } else {
        0
    }
}

/// How many whitespace characters a string ends with.
pub open spec fn ws_suffix_len(s: Seq<char>) -> int
    decreases s.len(),
{
    if s.len() > 0 && is_unicode_space(s.last()) {
        1 + ws_suffix_len(s.drop_last())
    } else {
        0
    }
}

/// The string with leading and trailing whitespace removed.
pub open spec fn trimmed(s: Seq<char>) -> Seq<char> {
    if ws_prefix_len(s) == s.len() {
        Seq::empty()
    } else {
        s.subrange(ws_prefix_len(s), s.len() - ws_suffix_len(s))
    }
}

proof fn lemma_ws_prefix_at(s: Seq<char>, a: int)
    requires
        0 <= a <= s.len(),
        forall|j: int| 0 <= j < a ==> is_unicode_space(#[trigger] s[j]),
        a < s.len() ==> !is_unicode_space(s[a]),
    ensures
        ws_prefix_len(s) == a,
    decreases a,
{
    if a == 0 {
    } else {
        lemma_ws_prefix_at(s.skip(1), a - 1);
        assert(forall|j: int| 0 <= j < a - 1 ==> s.skip(1)[j] == s[j + 1]);
        assert(a - 1 < s.skip(1).len() ==> s.skip(1)[a - 1] == s[a]);
    }
}

proof fn lemma_ws_suffix_at(s: Seq<char>, b: int)
    requires
        0 <= b <= s.len(),
        forall|j: int| b <= j < s.len() ==> is_unicode_space(#[trigger] s[j]),
        b > 0 ==> !is_unicode_space(s[b - 1]),
    ensures
        ws_suffix_len(s) == s.len() - b,
    decreases s.len() - b,
{
    if b == s.len() {
    } else {
        lemma_ws_suffix_at(s.drop_last(), b);
        assert(forall|j: int| 0 <= j < s.len() - 1 ==> s.drop_last()[j] == s[j]);
    }
}

/// Trim a slice of characters, handing back its trimmed copy.
fn trim_str(s: &str) -> (r: String)
    ensures
        r@ == trimmed(s@),
{
    let n = s.unicode_len();
    let mut a: usize = 0;
    while a < n && s.get_char(a).is_whitespace()
        invariant
            0 <= a <= n,
            n == s@.len(),
            forall|j: int| 0 <= j < a ==> is_unicode_space(#[trigger] s@[j]),
        decreases n - a,
    {
        a = a + 1;
    }
    if a == n {
        proof {
            lemma_ws_prefix_at(s@, n as int);
            reveal_strlit("");
            assert(""@ =~= Seq::<char>::empty());
        }
        return "".to_owned();
    }
    proof {
        lemma_ws_prefix_at(s@, a as int);
    }
    let mut b: usize = n;
    while b > a && s.get_char(b - 1).is_whitespace()
        invariant
            a <= b <= n,
            n == s@.len(),
            a < n,
            !is_unicode_space(s@[a as int]),
            forall|j: int| b <= j < n ==> is_unicode_space(#[trigger] s@[j]),
        decreases b,
    {
        b = b - 1;
    }
    proof {
        assert(b > a);
        lemma_ws_suffix_at(s@, b as int);
    }
    s.substring_char(a, b).to_owned()
}

/// The page names in a comma-separated list: each entry trimmed, empty
/// entries dropped, order kept.
pub open spec fn collect_pages(s: Seq<char>, cur: Seq<char>, acc: Seq<Seq<char>>) -> Seq<Seq<char>>
    decreases s.len(),
{
    if s.len() == 0 {
        if trimmed(cur).len() > 0 {
            acc.push(trimmed(cur))
        } else {
            acc
        }
    } else if s[0] == ',' {
        collect_pages(
            s.skip(1),
            Seq::empty(),
            if trimmed(cur).len() > 0 {
                acc.push(trimmed(cur))
            } else {
                acc
            },
        )
    } else {
        collect_pages(s.skip(1), cur.push(s[0]), acc)
    }
}

pub open spec fn page_list_spec(s: Seq<char>) -> Seq<Seq<char>> {
    collect_pages(s, Seq::empty(), Seq::empty())
}

/// Split a comma-separated list of page names, trimming each and
/// dropping empty entries.
pub fn parse_page_list(s: &str) -> (r: Vec<String>)
    ensures
        r@.map_values(|p: String| p@) == page_list_spec(s@),
{
    let n = s.unicode_len();
    let mut out: Vec<String> = Vec::new();
    let mut start: usize = 0;
    let mut i: usize = 0;
    proof {
        assert(s@.subrange(0, 0) =~= Seq::<char>::empty());
        assert(s@.skip(0) =~= s@);
        assert(out@.map_values(|p: String| p@) =~= Seq::<Seq<char>>::empty());
    }
    while i < n
        invariant
            0 <= start <= i <= n,
            n == s@.len(),
            page_list_spec(s@) == collect_pages(
                s@.skip(i as int),
                s@.subrange(start as int, i as int),
                out@.map_values(|p: String| p@),
            ),
            forall|j: int| start <= j < i ==> s@[j] != ',',
        decreases n - i,
    {
        proof {
            assert(s@.skip(i as int)[0] == s@[i as int]);
            assert(s@.skip(i as int).skip(1) =~= s@.skip(i + 1));
        }
        let c = s.get_char(i);
        if c == ',' {
            let seg = trim_str(s.substring_char(start, i));
            if seg.unicode_len() > 0 {
                let ghost before = out@.map_values(|p: String| p@);
                out.push(seg);
                proof {
                    assert(out@.map_values(|p: String| p@) =~= before.push(seg@));
                }
            }
            start = i + 1;
            proof {
                assert(s@.subrange(start as int, i + 1) =~= Seq::<char>::empty());
            }
        } else {
            proof {
                assert(s@.subrange(start as int, i + 1) =~= s@.subrange(start as int, i as int).push(
                    s@[i as int],
                ));
            }
        }
        i = i + 1;
    }
    let seg = trim_str(s.substring_char(start, n));
    if seg.unicode_len() > 0 {
        let ghost before = out@.map_values(|p: String| p@);
        out.push(seg);
        proof {
            assert(out@.map_values(|p: String| p@) =~= before.push(seg@));
        }
    }
    proof {
        assert(s@.skip(n as int) =~= Seq::<char>::empty());
    }
    out
}


/// The length of the run of decimal digits starting at `from`.
pub open spec fn digit_run(s: Seq<char>, from: int) -> int
    decreases s.len() - from,
    when 0 <= from <= s.len()
{
    if from < s.len() && is_ascii_digit_char(s[from]) {
        1 + digit_run(s, from + 1)
    } else {
        0
    }
}

/// The length of the run of alphanumeric characters starting at `from`.
pub open spec fn alnum_run(s: Seq<char>, from: int) -> int
    decreases s.len() - from,
    when 0 <= from <= s.len()
{
    if from < s.len() && is_ascii_alnum(s[from]) {
        1 + alnum_run(s, from + 1)
    } else {
        0
    }
}

proof fn lemma_digit_run_bound(s: Seq<char>, from: int)
    requires
        0 <= from <= s.len(),
    ensures
        0 <= digit_run(s, from) <= s.len() - from,
    decreases s.len() - from,
{
    if from < s.len() && is_ascii_digit_char(s[from]) {
        lemma_digit_run_bound(s, from + 1);
    }
}

proof fn lemma_alnum_run_bound(s: Seq<char>, from: int)
    requires
        0 <= from <= s.len(),
    ensures
        0 <= alnum_run(s, from) <= s.len() - from,
    decreases s.len() - from,
{
    if from < s.len() && is_ascii_alnum(s[from]) {
        lemma_alnum_run_bound(s, from + 1);
    }
}

/// Count the digit run starting at `from`.
fn scan_digit_run(s: &str, from: usize) -> (r: usize)
    requires
        from <= s@.len(),
        s@.len() <= usize::MAX,
    ensures
        r == digit_run(s@, from as int),
        from + r <= s@.len(),
{
    proof {
        lemma_digit_run_bound(s@, from as int);
    }
    let n = s.unicode_len();
    let mut i: usize = from;
    while i < n
        invariant
            from <= i <= n,
            n == s@.len(),
            digit_run(s@, from as int) == digit_run(s@, i as int) + (i - from),
        decreases n - i,
    {
        proof {
            lemma_digit_run_bound(s@, i as int);
        }
        let c = s.get_char(i);
        if !('0' <= c && c <= '9') {
            return i - from;
        }
        i = i + 1;
    }
    i - from
}

/// Count the alphanumeric run starting at `from`.
fn scan_alnum_run(s: &str, from: usize) -> (r: usize)
    requires
        from <= s@.len(),
        s@.len() <= usize::MAX,
    ensures
        r == alnum_run(s@, from as int),
        from + r <= s@.len(),
{
    proof {
        lemma_alnum_run_bound(s@, from as int);
    }
    let n = s.unicode_len();
    let mut i: usize = from;
    while i < n
        invariant
            from <= i <= n,
            n == s@.len(),
            alnum_run(s@, from as int) == alnum_run(s@, i as int) + (i - from),
        decreases n - i,
    {
        proof {
            lemma_alnum_run_bound(s@, i as int);
        }
        let c = s.get_char(i);
        if !(('a' <= c && c <= 'z') || ('A' <= c && c <= 'Z') || ('0' <= c && c <= '9')) {
            return i - from;
        }
        i = i + 1;
    }
    i - from
}

/// A whole file-key URL pattern matches at `p`: the literal
/// `figma.com/file/` or `figma.com/design/` followed by at least 22
/// alphanumeric characters.
pub open spec fn url_key_match_at(s: Seq<char>, p: int) -> bool {
    ||| (0 <= p && p + "figma.com/file/"@.len() <= s.len() && s.subrange(
        p,
        p + "figma.com/file/"@.len(),
    ) == "figma.com/file/"@ && alnum_run(s, p + "figma.com/file/"@.len()) >= 22)
    ||| (0 <= p && p + "figma.com/design/"@.len() <= s.len() && s.subrange(
        p,
        p + "figma.com/design/"@.len(),
    ) == "figma.com/design/"@ && alnum_run(s, p + "figma.com/design/"@.len()) >= 22)
}

/// The key captured at a matching position: the maximal alphanumeric run
/// after the prefix (`file` preferred over `design`, as the pattern
/// orders them).
pub open spec fn url_key_at(s: Seq<char>, p: int) -> Seq<char> {
    let start = if p + "figma.com/file/"@.len() <= s.len() && s.subrange(
        p,
        p + "figma.com/file/"@.len(),
    ) == "figma.com/file/"@ {
        p + "figma.com/file/"@.len()
    } else {
        p + "figma.com/design/"@.len()
    };
    s.subrange(start, start + alnum_run(s, start))
}

/// Extract and validate a file key from a share URL, or validate a bare
/// key.  For a URL (anything containing `figma.com`), the key is the
/// alphanumeric run after the leftmost `figma.com/file/` or
/// `figma.com/design/` that is followed by at least 22 such characters.
pub fn parse_file_key_from_url(input: &str) -> (r: Result<String, ValidationError>)
    ensures
        contains_seq(input@, "figma.com"@) ==> (match r {
            Ok(k) => exists|p: int|
                #[trigger] url_key_match_at(input@, p) && (forall|q: int|
                    0 <= q < p ==> !url_key_match_at(input@, q)) && k@ == url_key_at(input@, p),
            Err(e) => (forall|p: int| !url_key_match_at(input@, p)) && e.field@ == "url"@,
        }),
        !contains_seq(input@, "figma.com"@) ==> (match r {
            Ok(k) => k@ == input@ && valid_file_key(input@),
            Err(e) => !valid_file_key(input@) && e.field@ == "file_key"@,
        }),
{
    let n = input.unicode_len();
    if !contains_str(input, "figma.com") {
        return match validate_file_key(input) {
            Ok(_) => Ok(input.to_owned()),
            Err(e) => Err(e),
        };
    }
    let mut p: usize = 0;
    while p < n
        invariant
            0 <= p <= n,
            n == input@.len(),
            contains_seq(input@, "figma.com"@),
            forall|q: int| 0 <= q < p ==> !url_key_match_at(input@, q),
        decreases n - p,
    {
        let file_len: usize = 15;
        let design_len: usize = 17;
        proof {
            reveal_strlit("figma.com/file/");
            reveal_strlit("figma.com/design/");
        }
        if file_len <= n - p && match_at(input, "figma.com/file/", p) {
            let run = scan_alnum_run(input, p + file_len);
            if run >= 22 {
                let key = input.substring_char(p + file_len, p + file_len + run).to_owned();
                proof {
                    assert(url_key_match_at(input@, p as int));
                    assert(key@ =~= url_key_at(input@, p as int));
                }
                return Ok(key);
            }
        }
        if design_len <= n - p && match_at(input, "figma.com/design/", p) {
            let run = scan_alnum_run(input, p + design_len);
            if run >= 22 {
                let key = input.substring_char(p + design_len, p + design_len + run).to_owned();
                proof {
                    reveal_strlit("figma.com/file/");
                    reveal_strlit("figma.com/design/");
                    // the two prefixes differ at offset 10, so only one
                    // can match here
                    if input@.subrange(p as int, p + 15) == "figma.com/file/"@ {
                        assert(input@.subrange(p as int, p + 15)[10] == input@[p + 10]);
                        assert(input@.subrange(p as int, p + 17)[10] == input@[p + 10]);
                        assert(false);
                    }
                    assert(url_key_match_at(input@, p as int));
                    assert(key@ =~= url_key_at(input@, p as int));
                }
                return Ok(key);
            }
        }
        proof {
            assert(!url_key_match_at(input@, p as int));
        }
        p = p + 1;
    }
    let mut message: String = "Could not extract file key from URL: ".to_owned();
    message.append(input);
    proof {
        assert forall|q: int| !url_key_match_at(input@, q) by {
            if 0 <= q < n {
            } else {
                reveal_strlit("figma.com/file/");
                reveal_strlit("figma.com/design/");
            }
        }
    }
    Err(ValidationError { field: "url".to_owned(), message })
}

/// Every character is a digit, a dash or a colon.
pub open spec fn all_node_id_chars(s: Seq<char>) -> bool {
    forall|i: int|
        0 <= i < s.len() ==> (is_ascii_digit_char(#[trigger] s[i]) || s[i] == '-' || s[i] == ':')
}

/// The node-id pattern matches at `p`: the literal `node-id=` followed by
/// digits, a dash, and digits.
pub open spec fn node_id_match_at(s: Seq<char>, p: int) -> bool {
    &&& 0 <= p
    &&& p + "node-id="@.len() <= s.len()
    &&& s.subrange(p, p + "node-id="@.len()) == "node-id="@
    &&& ({
        let d1 = p + "node-id="@.len();
        let r1 = digit_run(s, d1);
        &&& r1 >= 1
        &&& d1 + r1 < s.len()
        &&& s[d1 + r1] == '-'
        &&& digit_run(s, d1 + r1 + 1) >= 1
    })
}

/// The captured node id at a matching position: digits, dash, digits.
pub open spec fn node_id_at(s: Seq<char>, p: int) -> Seq<char> {
    let d1 = p + "node-id="@.len();
    let r1 = digit_run(s, d1);
    let r2 = digit_run(s, d1 + r1 + 1);
    s.subrange(d1, d1 + r1 + 1 + r2)
}

/// Every dash replaced by a colon.
pub open spec fn dashes_to_colons(s: Seq<char>) -> Seq<char> {
    Seq::new(
        s.len(),
        |i: int|
            if s[i] == '-' {
                ':'
            } else {
                s[i]
            },
    )
}

/// Replace every dash by a colon.
fn replace_dashes(s: &str) -> (r: String)
    requires
        s@.len() <= usize::MAX,
    ensures
        r@ == dashes_to_colons(s@),
{
    let n = s.unicode_len();
    let mut out: String = "".to_owned();
    let mut i: usize = 0;
    proof {
        reveal_strlit("");
        assert(out@ =~= dashes_to_colons(s@).take(0));
    }
    while i < n
        invariant
            0 <= i <= n,
            n == s@.len(),
            out@ == dashes_to_colons(s@).take(i as int),
        decreases n - i,
    {
        let c = s.get_char(i);
        if c == '-' {
            out.append(":");
            proof {
                reveal_strlit(":");
            }
        } else {
            out.append(s.substring_char(i, i + 1));
        }
        proof {
            assert(out@ =~= dashes_to_colons(s@).take(i + 1));
        }
        i = i + 1;
    }
    proof {
        assert(dashes_to_colons(s@).take(n as int) =~= dashes_to_colons(s@));
    }
    out
}

/// Parse a node id from a share URL, or normalize a bare hyphenated or
/// colon-separated id.  A `node-id=` parameter wins; otherwise the input
/// qualifies when it consists of digits, dashes and colons and has at
/// least one separator.  Dashes become colons either way.
pub fn parse_node_id_from_url(url: &str) -> (r: Option<String>)
    ensures
        (exists|p: int| node_id_match_at(url@, p)) ==> (r matches Some(v) && exists|p: int|
            #[trigger] node_id_match_at(url@, p) && (forall|q: int|
                0 <= q < p ==> !node_id_match_at(url@, q)) && v@ == dashes_to_colons(
                node_id_at(url@, p),
            )),
        (forall|p: int| !node_id_match_at(url@, p)) ==> ({
            if all_node_id_chars(url@) && (contains_seq(url@, ":"@) || contains_seq(url@, "-"@)) {
                r matches Some(v) && v@ == dashes_to_colons(url@)
            } else {
                r is None
            }
        }),
{
    let n = url.unicode_len();
    let mut p: usize = 0;
    while p < n
        invariant
            0 <= p <= n,
            n == url@.len(),
            forall|q: int| 0 <= q < p ==> !node_id_match_at(url@, q),
        decreases n - p,
    {
        let pref_len: usize = 8;
        proof {
            reveal_strlit("node-id=");
        }
        if pref_len <= n - p && match_at(url, "node-id=", p) {
            let d1 = p + pref_len;
            let r1 = scan_digit_run(url, d1);
            if r1 >= 1 && d1 + r1 < n && url.get_char(d1 + r1) == '-' {
                let r2 = scan_digit_run(url, d1 + r1 + 1);
                if r2 >= 1 {
                    let captured = url.substring_char(d1, d1 + r1 + 1 + r2);
                    let out = replace_dashes(captured);
                    proof {
                        assert(node_id_match_at(url@, p as int));
                        assert(captured@ =~= node_id_at(url@, p as int));
                    }
                    return Some(out);
                }
            }
        }
        proof {
            assert(!node_id_match_at(url@, p as int));
        }
        p = p + 1;
    }
    proof {
        assert forall|q: int| !node_id_match_at(url@, q) by {
            if 0 <= q < n {
            } else {
                reveal_strlit("node-id=");
            }
        }
    }
    let mut all_ok = true;
    let mut has_sep = false;
    let mut i: usize = 0;
    while i < n
        invariant
            0 <= i <= n,
            n == url@.len(),
            all_ok == forall|j: int|
                0 <= j < i ==> (is_ascii_digit_char(#[trigger] url@[j]) || url@[j] == '-'
                    || url@[j] == ':'),
            has_sep == exists|j: int| 0 <= j < i && (url@[j] == '-' || url@[j] == ':'),
        decreases n - i,
    {
        let c = url.get_char(i);
        if !(('0' <= c && c <= '9') || c == '-' || c == ':') {
            all_ok = false;
        }
        if c == '-' || c == ':' {
            has_sep = true;
        }
        i = i + 1;
    }
    if all_ok && has_sep {
        proof {
            let j = choose|j: int| 0 <= j < n && (url@[j] == '-' || url@[j] == ':');
            reveal_strlit(":");
            reveal_strlit("-");
            if url@[j] == ':' {
                assert(url@.subrange(j, j + 1) =~= ":"@);
                assert(url@.subrange(j, j + ":"@.len()) == ":"@);
                assert(contains_seq(url@, ":"@));
            } else {
                assert(url@.subrange(j, j + 1) =~= "-"@);
                assert(url@.subrange(j, j + "-"@.len()) == "-"@);
                assert(contains_seq(url@, "-"@));
            }
        }
        Some(replace_dashes(url))
    } else {
        proof {
            if all_node_id_chars(url@) && (contains_seq(url@, ":"@) || contains_seq(url@, "-"@)) {
                reveal_strlit(":");
                reveal_strlit("-");
                if contains_seq(url@, ":"@) {
                    let k = choose|k: int|
                        0 <= k && k + ":"@.len() <= url@.len() && #[trigger] url@.subrange(
                            k,
                            k + ":"@.len(),
                        ) == ":"@;
                    assert(url@.subrange(k, k + ":"@.len())[0] == url@[k]);
                    assert(url@[k] == ':');
                } else {
                    let k = choose|k: int|
                        0 <= k && k + "-"@.len() <= url@.len() && #[trigger] url@.subrange(
                            k,
                            k + "-"@.len(),
                        ) == "-"@;
                    assert(url@.subrange(k, k + "-"@.len())[0] == url@[k]);
                    assert(url@[k] == '-');
                }
            }
        }
        None
    }
}

/// Parse a file key and any node id from a share URL: the key exactly as
/// [`parse_file_key_from_url`] finds it, and the node-id list holding
/// exactly what [`parse_node_id_from_url`] finds — one entry when it
/// finds an id, none otherwise.  A missing node id is not an error; the
/// call fails exactly when file-key extraction does.
pub fn parse_file_and_nodes_from_url(url: &str) -> (r: Result<
    (String, Vec<String>),
    ValidationError,
>)
    ensures
        r is Err <==> (if contains_seq(url@, "figma.com"@) {
            forall|p: int| !url_key_match_at(url@, p)
        } else {
            !valid_file_key(url@)
        }),
        r matches Err(e) ==> e.field@ == (if contains_seq(url@, "figma.com"@) {
            "url"@
        } else {
            "file_key"@
        }),
        r matches Ok(kn) ==> ({
            &&& (contains_seq(url@, "figma.com"@) ==> exists|p: int|
                #[trigger] url_key_match_at(url@, p) && (forall|q: int|
                    0 <= q < p ==> !url_key_match_at(url@, q)) && kn.0@ == url_key_at(url@, p))
            &&& (!contains_seq(url@, "figma.com"@) ==> kn.0@ == url@ && valid_file_key(url@))
            &&& ((exists|p: int| node_id_match_at(url@, p)) ==> (kn.1@.len() == 1 && exists|p: int|
                #[trigger] node_id_match_at(url@, p) && (forall|q: int|
                    0 <= q < p ==> !node_id_match_at(url@, q)) && kn.1@[0]@ == dashes_to_colons(
                    node_id_at(url@, p),
                )))
            &&& ((forall|p: int| !node_id_match_at(url@, p)) ==> (
            if all_node_id_chars(url@) && (contains_seq(url@, ":"@) || contains_seq(url@, "-"@)) {
                kn.1@.len() == 1 && kn.1@[0]@ == dashes_to_colons(url@)
            } else {
                kn.1@.len() == 0
            }))
        }),
{
    let file_key = match parse_file_key_from_url(url) {
        Ok(k) => k,
        Err(e) => {
            return Err(e);
        },
    };
    let mut node_ids: Vec<String> = Vec::new();
    match parse_node_id_from_url(url) {
        Some(node_id) => {
            node_ids.push(node_id);
        },
        None => {},
    }
    Ok((file_key, node_ids))
}

} // verus!
