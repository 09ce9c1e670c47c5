//! Textual scans of a package's native Rust sources and build scripts: comment
//! stripping, the `u n s a f e` keyword search, and the pattern checks that
//! flag environment reads, downloads, threads, FFI, file and network access.
use vstd::prelude::*;
use vstd::utf8::encode_utf8;
use crate::names::kw_ext;
use crate::execution::{
    lemma_ascending_determined, lemma_text_lt_irreflexive, lemma_text_lt_total, lemma_text_lt_transitive, text_less, text_lt,
};
use crate::cargo_manifest::texts;
use crate::chars::{chars_of, contains_chars, contains_seq, join2, push_char};
use vstd::string::StringSliceAdditionalSpecFns;

verus! {

/// A byte taken as the character with the same number, as `byte as char` does.
pub open spec fn latin1(b: Seq<u8>) -> Seq<char> {
    b.map_values(|x: u8| x as char)
}

/// The first position at or after `j` that holds a newline, or the end.
pub open spec fn line_end(b: Seq<u8>, j: int) -> int
    decreases b.len() - j,
{
    if j >= b.len() || b[j] == 10u8 {
        j
    } else {
        line_end(b, j + 1)
    }
}

/// The first position at or after `k` where `*/` starts, or the last byte
/// when no `*/` follows.
pub open spec fn block_end(b: Seq<u8>, k: int) -> int
    decreases b.len() - k,
{
    if k + 1 >= b.len() || (b[k] == 42u8 && b[k + 1] == 47u8) {
        k
    } else {
        block_end(b, k + 1)
    }
}

pub proof fn lemma_line_end(b: Seq<u8>, j: int)
    ensures
        line_end(b, j) >= j,
        j <= b.len() ==> line_end(b, j) <= b.len(),
    decreases b.len() - j,
{
    if !(j >= b.len() || b[j] == 10u8) {
        lemma_line_end(b, j + 1);
    }
}

pub proof fn lemma_block_end(b: Seq<u8>, k: int)
    ensures
        block_end(b, k) >= k,
        k < b.len() ==> block_end(b, k) < b.len(),
    decreases b.len() - k,
{
    if !(k + 1 >= b.len() || (b[k] == 42u8 && b[k + 1] == 47u8)) {
        lemma_block_end(b, k + 1);
    }
}

/// Whether a `//` comment starts at `i`.
pub open spec fn line_comment_at(b: Seq<u8>, i: int) -> bool {
    0 <= i && i + 1 < b.len() && b[i] == 47u8 && b[i + 1] == 47u8
}

/// Whether a `/*` comment starts at `i`.
pub open spec fn block_comment_at(b: Seq<u8>, i: int) -> bool {
    0 <= i && i + 1 < b.len() && b[i] == 47u8 && b[i + 1] == 42u8
}

/// Where scanning resumes after the block comment that opens at `i`.
pub open spec fn after_block(b: Seq<u8>, i: int) -> int {
    if block_end(b, i + 2) + 2 < b.len() {
        block_end(b, i + 2) + 2
    } else {
        b.len() as int
    }
}

/// The bytes from `i` on with `//` comments (up to, not including, the
/// newline) and `/* */` comments (not nested; an unclosed one runs to the end)
/// removed.
pub open spec fn strip_comments(b: Seq<u8>, i: int) -> Seq<u8>
    decreases b.len() - i,
{
    if i < 0 || i >= b.len() {
        Seq::empty()
    } else if line_comment_at(b, i) {
        proof {
            lemma_line_end(b, i + 2);
        }
        strip_comments(b, line_end(b, i + 2))
    } else if block_comment_at(b, i) {
        proof {
            lemma_block_end(b, i + 2);
        }
        strip_comments(b, after_block(b, i))
    } else {
        seq![b[i]] + strip_comments(b, i + 1)
    }
}

/// Whether a comment opens at `i`.
pub open spec fn opens_comment(b: Seq<u8>, i: int) -> bool {
    line_comment_at(b, i) || block_comment_at(b, i)
}

proof fn lemma_strip_starts_with(b: Seq<u8>, i: int)
    requires
        0 <= i < b.len(),
        !opens_comment(b, i),
    ensures
        strip_comments(b, i).len() > 0,
        strip_comments(b, i)[0] == b[i],
{
}

proof fn lemma_strip_opens_nothing(b: Seq<u8>, i: int)
    ensures
        forall|k: int| !opens_comment(strip_comments(b, i), k),
    decreases b.len() - i,
{
    if i < 0 || i >= b.len() {
        assert(strip_comments(b, i).len() == 0);
    } else if line_comment_at(b, i) {
        lemma_line_end(b, i + 2);
        lemma_strip_opens_nothing(b, line_end(b, i + 2));
        assert(strip_comments(b, i) == strip_comments(b, line_end(b, i + 2)));
    } else if block_comment_at(b, i) {
        lemma_block_end(b, i + 2);
        lemma_strip_opens_nothing(b, after_block(b, i));
        assert(strip_comments(b, i) == strip_comments(b, after_block(b, i)));
    } else {
        lemma_strip_opens_nothing(b, i + 1);
        let rest = strip_comments(b, i + 1);
        let t = strip_comments(b, i);
        assert(t == seq![b[i]] + rest);
        assert forall|k: int| !opens_comment(t, k) by {
            if 1 <= k {
                assert(!opens_comment(rest, k - 1));
                if 0 <= k && k + 1 < t.len() {
                    assert(t[k] == rest[k - 1] && t[k + 1] == rest[k]);
                }
            } else if k == 0 && 1 < t.len() && b[i] == 47u8 {
                // `b[i]` is a `/` that opens no comment, so the next byte is
                // neither `/` nor `*`, and it is the first one kept after it.
                assert(i + 1 < b.len());
                assert(b[i + 1] != 47u8 && b[i + 1] != 42u8);
                assert(!opens_comment(b, i + 1));
                lemma_strip_starts_with(b, i + 1);
                assert(t[1] == rest[0]);
            }
        }
    }
}

proof fn lemma_strip_keeps_plain_text(s: Seq<u8>, i: int)
    requires
        forall|k: int| !opens_comment(s, k),
        0 <= i <= s.len(),
    ensures
        strip_comments(s, i) == s.skip(i),
    decreases s.len() - i,
{
    if i < s.len() {
        assert(!opens_comment(s, i));
        lemma_strip_keeps_plain_text(s, i + 1);
        assert(s.skip(i) =~= seq![s[i]] + s.skip(i + 1));
    } else {
        assert(s.skip(i) =~= Seq::<u8>::empty());
    }
}

/// Stripping leaves no `//` or `/*` behind (a kept `/` is never followed by
/// a kept `/` or `*`, even across a removed comment), so stripping the result
/// again changes nothing.
pub proof fn law_comment_stripping_is_idempotent(b: Seq<u8>)
    ensures
        forall|k: int| !opens_comment(strip_comments(b, 0), k),
        strip_comments(strip_comments(b, 0), 0) == strip_comments(b, 0),
{
    lemma_strip_opens_nothing(b, 0);
    lemma_strip_keeps_plain_text(strip_comments(b, 0), 0);
    assert(strip_comments(b, 0).skip(0) == strip_comments(b, 0));
}

/// The source with its comments removed; each kept byte becomes the character
/// with the same number.
pub fn source_without_rust_comments(source: &str) -> (r: String)
    ensures
        r@ == stripped_text(source@),
{
    let bytes = source.as_bytes();
    let ghost b = bytes@;
    let n = bytes.len();
    let mut out = String::new();
    let ghost mut kept: Seq<u8> = Seq::empty();
    let mut index: usize = 0;
    while index < n
        invariant
            b == bytes@,
            n == b.len(),
            index <= n,
            out@ == latin1(kept),
            kept + strip_comments(b, index as int) == strip_comments(b, 0),
        decreases n - index,
    {
        if bytes[index] == 47u8 && n - index > 1 && bytes[index + 1] == 47u8 {
            let ghost start = index + 2;
            index += 2;
            while index < n && bytes[index] != 10u8
                invariant
                    b == bytes@,
                    n == b.len(),
                    start <= index <= n,
                    line_end(b, index as int) == line_end(b, start),
                decreases n - index,
            {
                index += 1;
            }
        } else if bytes[index] == 47u8 && n - index > 1 && bytes[index + 1] == 42u8 {
            let ghost open = index as int;
            index += 2;
            while n - index > 1 && !(bytes[index] == 42u8 && bytes[index + 1] == 47u8)
                invariant
                    b == bytes@,
                    n == b.len(),
                    open + 2 <= index <= n,
                    block_end(b, index as int) == block_end(b, open + 2),
                decreases n - index,
            {
                index += 1;
            }
            index = if n - index > 2 { index + 2 } else { n };
        } else {
            let c = bytes[index] as char;
            push_char(&mut out, c);
            proof {
                assert(latin1(kept.push(b[index as int])) == latin1(kept).push(c));
                assert(kept + strip_comments(b, index as int) == kept.push(b[index as int]) + strip_comments(
                    b,
                    index + 1,
                ));
                kept = kept.push(b[index as int]);
            }
            index += 1;
        }
    }
    out
}

/// `_` or an ASCII letter.
pub open spec fn ident_start_byte(x: u8) -> bool {
    x == 95u8 || (65u8 <= x && x <= 90u8) || (97u8 <= x && x <= 122u8)
}

/// `_`, an ASCII letter or an ASCII digit.
pub open spec fn ident_continue_byte(x: u8) -> bool {
    ident_start_byte(x) || (48u8 <= x && x <= 57u8)
}

/// Whether a byte may start a Rust identifier.
pub fn is_rust_ident_start(byte: u8) -> (r: bool)
    ensures
        r == ident_start_byte(byte),
{
    byte == 95u8 || (65u8 <= byte && byte <= 90u8) || (97u8 <= byte && byte <= 122u8)
}

/// Whether a byte may continue a Rust identifier.
pub fn is_rust_ident_continue(byte: u8) -> (r: bool)
    ensures
        r == ident_continue_byte(byte),
{
    is_rust_ident_start(byte) || (48u8 <= byte && byte <= 57u8)
}

/// The end of the identifier whose rest starts at `j`.
pub open spec fn ident_end(b: Seq<u8>, j: int) -> int
    decreases b.len() - j,
{
    if 0 <= j < b.len() && ident_continue_byte(b[j]) {
        ident_end(b, j + 1)
    } else {
        j
    }
}

/// Where scanning resumes after a literal closed by `q` whose body starts at
/// `j`: past the closing quote, or the end; a backslash escapes the next byte.
pub open spec fn quoted_end(b: Seq<u8>, j: int, q: u8) -> int
    decreases b.len() - j,
{
    if j < 0 || j >= b.len() {
        b.len() as int
    } else if b[j] == 92u8 {
        if j + 2 < b.len() {
            quoted_end(b, j + 2, q)
        } else {
            b.len() as int
        }
    } else if b[j] == q {
        j + 1
    } else {
        quoted_end(b, j + 1, q)
    }
}

pub proof fn lemma_ident_end(b: Seq<u8>, j: int)
    ensures
        ident_end(b, j) >= j,
        0 <= j <= b.len() ==> ident_end(b, j) <= b.len(),
    decreases b.len() - j,
{
    if 0 <= j < b.len() && ident_continue_byte(b[j]) {
        lemma_ident_end(b, j + 1);
    }
}

pub proof fn lemma_quoted_end(b: Seq<u8>, j: int, q: u8)
    ensures
        0 <= j <= b.len() ==> quoted_end(b, j, q) >= j,
        quoted_end(b, j, q) <= b.len(),
    decreases b.len() - j,
{
    if j < 0 || j >= b.len() {
    } else if b[j] == 92u8 {
        if j + 2 < b.len() {
            lemma_quoted_end(b, j + 2, q);
        }
    } else if b[j] == q {
    } else {
        lemma_quoted_end(b, j + 1, q);
    }
}

/// The keyword's bytes.
pub open spec fn keyword_bytes() -> Seq<u8> {
    seq![117u8, 110u8, 115u8, 97u8, 102u8, 101u8]
}

/// Whether, from `i` on, an identifier token outside comments, string
/// literals and character literals is the keyword.
pub open spec fn has_keyword_token(b: Seq<u8>, i: int) -> bool
    decreases b.len() - i,
{
    if i < 0 || i >= b.len() {
        false
    } else if line_comment_at(b, i) {
        proof {
            lemma_line_end(b, i + 2);
        }
        has_keyword_token(b, line_end(b, i + 2))
    } else if block_comment_at(b, i) {
        proof {
            lemma_block_end(b, i + 2);
        }
        has_keyword_token(b, after_block(b, i))
    } else if b[i] == 34u8 {
        proof {
            lemma_quoted_end(b, i + 1, 34u8);
        }
        has_keyword_token(b, quoted_end(b, i + 1, 34u8))
    } else if b[i] == 39u8 {
        proof {
            lemma_quoted_end(b, i + 1, 39u8);
        }
        has_keyword_token(b, quoted_end(b, i + 1, 39u8))
    } else if ident_start_byte(b[i]) {
        proof {
            lemma_ident_end(b, i + 1);
        }
        b.subrange(i, ident_end(b, i + 1)) == keyword_bytes() || has_keyword_token(b, ident_end(b, i + 1))
    } else {
        has_keyword_token(b, i + 1)
    }
}

fn is_keyword_word(bytes: &[u8], start: usize, end: usize) -> (r: bool)
    requires
        start <= end <= bytes@.len(),
    ensures
        r == (bytes@.subrange(start as int, end as int) == keyword_bytes()),
{
    if end - start != 6 {
        proof {
            assert(bytes@.subrange(start as int, end as int).len() != keyword_bytes().len());
        }
        return false;
    }
    let r = bytes[start] == 117u8 && bytes[start + 1] == 110u8 && bytes[start + 2] == 115u8
        && bytes[start + 3] == 97u8 && bytes[start + 4] == 102u8 && bytes[start + 5] == 101u8;
    proof {
        if r {
            assert(bytes@.subrange(start as int, end as int) =~= keyword_bytes());
        } else {
            let w = bytes@.subrange(start as int, end as int);
            if w == keyword_bytes() {
                assert(w[0] == 117u8 && w[1] == 110u8 && w[2] == 115u8);
                assert(w[3] == 97u8 && w[4] == 102u8 && w[5] == 101u8);
            }
        }
    }
    r
}

/// Whether the source holds the keyword as a token: not inside a comment, a
/// string literal or a character literal, and not as part of a longer
/// identifier.
pub fn source_contains_rust_unsafe_keyword(source: &str) -> (r: bool)
    ensures
        r == has_keyword_token(source.spec_bytes(), 0),
{
    let bytes = source.as_bytes();
    let ghost b = bytes@;
    let n = bytes.len();
    let mut index: usize = 0;
    while index < n
        invariant
            b == bytes@,
            n == b.len(),
            index <= n,
            has_keyword_token(b, index as int) == has_keyword_token(b, 0),
            b == source.spec_bytes(),
        decreases n - index,
    {
        let byte = bytes[index];
        if byte == 47u8 && n - index > 1 && bytes[index + 1] == 47u8 {
            let ghost start = index + 2;
            index += 2;
            while index < n && bytes[index] != 10u8
                invariant
                    b == bytes@,
                    n == b.len(),
                    start <= index <= n,
                    line_end(b, index as int) == line_end(b, start),
                decreases n - index,
            {
                index += 1;
            }
        } else if byte == 47u8 && n - index > 1 && bytes[index + 1] == 42u8 {
            let ghost open = index as int;
            index += 2;
            while n - index > 1 && !(bytes[index] == 42u8 && bytes[index + 1] == 47u8)
                invariant
                    b == bytes@,
                    n == b.len(),
                    open + 2 <= index <= n,
                    block_end(b, index as int) == block_end(b, open + 2),
                decreases n - index,
            {
                index += 1;
            }
            index = if n - index > 2 { index + 2 } else { n };
        } else if byte == 34u8 || byte == 39u8 {
            let ghost q = byte;
            let ghost first = index + 1;
            index += 1;
            loop
                invariant_except_break
                    quoted_end(b, index as int, q) == quoted_end(b, first, q),
                invariant
                    b == bytes@,
                    n == b.len(),
                    first <= index <= n,
                    (byte == 34u8 || byte == 39u8),
                    q == byte,
                ensures
                    index == quoted_end(b, first, q),
                decreases n - index,
            {
                if index >= n {
                    break;
                }
                if bytes[index] == 92u8 {
                    index = if n - index > 2 { index + 2 } else { n };
                } else if bytes[index] == byte {
                    index += 1;
                    proof {
                        assert(quoted_end(b, index - 1, q) == index);
                    }
                    break;
                } else {
                    index += 1;
                }
            }
        } else if is_rust_ident_start(byte) {
            let start = index;
            index += 1;
            while index < n && is_rust_ident_continue(bytes[index])
                invariant
                    b == bytes@,
                    n == b.len(),
                    start < index <= n,
                    ident_end(b, index as int) == ident_end(b, start + 1),
                    has_keyword_token(b, start as int) == has_keyword_token(b, 0),
                decreases n - index,
            {
                index += 1;
            }
            proof {
                assert(ident_end(b, index as int) == index);
            }
            if is_keyword_word(bytes, start, index) {
                proof {
                    assert(has_keyword_token(b, start as int));
                }
                return true;
            }
        } else {
            index += 1;
        }
    }
    false
}

/// ASCII upper-case letters become lower-case; every other character stays.
pub open spec fn lower_char(c: char) -> char {
    if 'A' <= c && c <= 'Z' {
        ((c as u32) + 32) as char
    } else {
        c
    }
}

pub open spec fn ascii_lower(s: Seq<char>) -> Seq<char> {
    s.map_values(|c: char| lower_char(c))
}

fn lower_char_exec(c: char) -> (r: char)
    ensures
        r == lower_char(c),
{
    if 'A' <= c && c <= 'Z' {
        let code: u8 = (c as u8) + 32u8;
        code as char
    } else {
        c
    }
}

/// The characters of `s` with ASCII letters in lower case (as
/// `str::to_ascii_lowercase` gives them).
pub fn ascii_lowercase_chars(s: &str) -> (r: Vec<char>)
    ensures
        r@ == ascii_lower(s@),
{
    let v = chars_of(s);
    let mut out: Vec<char> = Vec::new();
    let mut i: usize = 0;
    while i < v.len()
        invariant
            v@ == s@,
            i <= v@.len(),
            out@ == ascii_lower(s@).take(i as int),
        decreases v.len() - i,
    {
        let c = lower_char_exec(v[i]);
        out.push(c);
        assert(ascii_lower(s@).take(i + 1) == ascii_lower(s@).take(i as int).push(c));
        i += 1;
    }
    assert(ascii_lower(s@).take(v@.len() as int) == ascii_lower(s@));
    out
}

fn contains_text(hay: &Vec<char>, pattern: &str) -> (r: bool)
    ensures
        r == contains_seq(hay@, pattern@),
{
    let p = chars_of(pattern);
    contains_chars(hay.as_slice(), p.as_slice())
}

/// Whether a build script reads the environment: it names `env::var`, which
/// `env::var_os` and the `std::`-qualified forms contain, or `env!(`, which
/// `option_env!(` contains.
pub open spec fn reads_environment(s: Seq<char>) -> bool {
    contains_seq(s, "env::var"@) || contains_seq(s, "env!("@)
}

/// Whether a build script may fetch code: its lower-cased text names a URL
/// scheme, an HTTP client, `git clone`, `git2` or a raw TCP stream.
pub open spec fn may_download(s: Seq<char>) -> bool {
    let l = ascii_lower(s);
    ||| contains_seq(l, "http://"@)
    ||| contains_seq(l, "https://"@)
    ||| contains_seq(l, "reqwest"@)
    ||| contains_seq(l, "ureq"@)
    ||| contains_seq(l, "curl"@)
    ||| contains_seq(l, "wget"@)
    ||| contains_seq(l, "git clone"@)
    ||| contains_seq(l, "git2"@)
    ||| contains_seq(l, "tcpstream"@)
}

/// Whether a build script reads an environment variable.
pub fn build_script_reads_environment(source: &str) -> (r: bool)
    ensures
        r == reads_environment(source@),
{
    let v = chars_of(source);
    contains_text(&v, "env::var") || contains_text(&v, "env!(")
}

/// Whether a build script may download code.
pub fn build_script_may_download_code(source: &str) -> (r: bool)
    ensures
        r == may_download(source@),
{
    let l = ascii_lowercase_chars(source);
    contains_text(&l, "http://") || contains_text(&l, "https://") || contains_text(&l, "reqwest")
        || contains_text(&l, "ureq") || contains_text(&l, "curl") || contains_text(&l, "wget")
        || contains_text(&l, "git clone") || contains_text(&l, "git2") || contains_text(&l, "tcpstream")
}

/// What the build scripts of a native package were found to do.
#[derive(Clone, Copy, Debug, PartialEq, Eq, Default)]
pub struct NativeBuildScriptRisk {
    pub env_detected: bool,
    pub download_detected: bool,
}

/// The text of a source with its comments removed, each kept byte read as a
/// character.
pub open spec fn stripped_text(s: Seq<char>) -> Seq<char> {
    latin1(strip_comments(encode_utf8(s), 0))
}

/// The risks of a set of build scripts, given their contents: each is checked
/// with its comments removed.
pub fn native_build_script_risks(sources: &Vec<String>) -> (r: NativeBuildScriptRisk)
    ensures
        r.env_detected == exists|i: int|
            0 <= i < sources@.len() && reads_environment(#[trigger] stripped_text(sources@[i]@)),
        r.download_detected == exists|i: int|
            0 <= i < sources@.len() && may_download(#[trigger] stripped_text(sources@[i]@)),
{
    let mut risk = NativeBuildScriptRisk { env_detected: false, download_detected: false };
    let mut k: usize = 0;
    while k < sources.len()
        invariant
            k <= sources@.len(),
            risk.env_detected == exists|i: int|
                0 <= i < k && reads_environment(#[trigger] stripped_text(sources@[i]@)),
            risk.download_detected == exists|i: int|
                0 <= i < k && may_download(#[trigger] stripped_text(sources@[i]@)),
        decreases sources.len() - k,
    {
        let source = sources[k].as_str();
        let stripped = source_without_rust_comments(source);
        assert(stripped@ == stripped_text(sources@[k as int]@));
        if build_script_reads_environment(stripped.as_str()) {
            risk.env_detected = true;
        }
        if build_script_may_download_code(stripped.as_str()) {
            risk.download_detected = true;
        }
        k += 1;
    }
    risk
}

/// What the textual scan of a native package's Rust sources found.
pub struct NativeSemanticScanAccumulator {
    pub native_parallel_backends: Vec<String>,
    pub thread_detected: bool,
    pub unsafe_detected: bool,
    pub ffi_detected: bool,
    pub filesystem_detected: bool,
    pub network_detected: bool,
    pub build_script_present: bool,
}

/// Whether a (comment-free) source spawns threads.
pub open spec fn mentions_threads(s: Seq<char>) -> bool {
    ||| contains_seq(s, "std"@ + "::thread"@)
    ||| contains_seq(s, "thread::spawn"@)
    ||| contains_seq(s, ".spawn("@)
}

/// Whether a (comment-free) source declares a C or system ABI block.
pub open spec fn mentions_ffi(s: Seq<char>) -> bool {
    ||| contains_seq(s, kw_ext() + " \"C\""@)
    ||| contains_seq(s, kw_ext() + " \"system\""@)
}

/// Whether a (comment-free) source touches the file system.
pub open spec fn mentions_filesystem(s: Seq<char>) -> bool {
    ||| contains_seq(s, "std"@ + "::fs"@)
    ||| contains_seq(s, "fs::"@)
    ||| contains_seq(s, "File::"@)
}

/// Whether a (comment-free) source may use the network.
pub open spec fn mentions_network(s: Seq<char>) -> bool {
    let l = ascii_lower(s);
    ||| contains_seq(l, "reqwest"@)
    ||| contains_seq(l, "ureq"@)
    ||| contains_seq(l, "curl"@)
    ||| contains_seq(l, "tcpstream"@)
    ||| contains_seq(l, "udpsocket"@)
    ||| contains_seq(l, "http://"@)
    ||| contains_seq(l, "https://"@)
}

fn ext_word() -> (r: String)
    ensures
        r@ == kw_ext(),
{
    let mut w = String::new();
    push_char(&mut w, 'e');
    push_char(&mut w, 'x');
    push_char(&mut w, 't');
    push_char(&mut w, 'e');
    push_char(&mut w, 'r');
    push_char(&mut w, 'n');
    assert(w@ =~= kw_ext());
    w
}

/// Adds what one native Rust source shows to the scan: each flag is raised
/// when the source, with comments removed, shows it, and never lowered.
pub fn scan_source_semantics(source: &str, scan: &mut NativeSemanticScanAccumulator)
    ensures
        final(scan).thread_detected == (old(scan).thread_detected || mentions_threads(stripped_text(source@))),
        final(scan).unsafe_detected == (old(scan).unsafe_detected || has_keyword_token(
            encode_utf8(stripped_text(source@)),
            0,
        )),
        final(scan).ffi_detected == (old(scan).ffi_detected || mentions_ffi(stripped_text(source@))),
        final(scan).filesystem_detected == (old(scan).filesystem_detected || mentions_filesystem(
            stripped_text(source@),
        )),
        final(scan).network_detected == (old(scan).network_detected || mentions_network(stripped_text(source@))),
        final(scan).native_parallel_backends@ == old(scan).native_parallel_backends@,
        final(scan).build_script_present == old(scan).build_script_present,
{
    let stripped = source_without_rust_comments(source);
    let text = chars_of(stripped.as_str());
    let std_thread = join2("std", "::thread");
    if contains_text(&text, std_thread.as_str()) || contains_text(&text, "thread::spawn") || contains_text(
        &text,
        ".spawn(",
    ) {
        scan.thread_detected = true;
    }
    if source_contains_rust_unsafe_keyword(stripped.as_str()) {
        scan.unsafe_detected = true;
    }
    let ext = ext_word();
    let c_abi = join2(ext.as_str(), " \"C\"");
    let system_abi = join2(ext.as_str(), " \"system\"");
    if contains_text(&text, c_abi.as_str()) || contains_text(&text, system_abi.as_str()) {
        scan.ffi_detected = true;
    }
    let std_fs = join2("std", "::fs");
    if contains_text(&text, std_fs.as_str()) || contains_text(&text, "fs::") || contains_text(&text, "File::") {
        scan.filesystem_detected = true;
    }
    let lower = ascii_lowercase_chars(stripped.as_str());
    if contains_text(&lower, "reqwest") || contains_text(&lower, "ureq") || contains_text(&lower, "curl")
        || contains_text(&lower, "tcpstream") || contains_text(&lower, "udpsocket") || contains_text(
        &lower,
        "http://",
    ) || contains_text(&lower, "https://") {
        scan.network_detected = true;
    }
}

/// Strictly ascending texts: in order, none twice.
pub open spec fn texts_ascending(s: Seq<Seq<char>>) -> bool {
    forall|i: int, j: int| 0 <= i < j < s.len() ==> text_lt(#[trigger] s[i], #[trigger] s[j])
}

proof fn lemma_insert_text_ascending(s: Seq<Seq<char>>, k: int, x: Seq<char>)
    requires
        texts_ascending(s),
        0 <= k <= s.len(),
        forall|i: int| 0 <= i < k ==> text_lt(#[trigger] s[i], x),
        k < s.len() ==> !text_lt(s[k], x) && s[k] != x,
    ensures
        texts_ascending(s.insert(k, x)),
        s.insert(k, x).to_set() == s.to_set().insert(x),
{
    let t = s.insert(k, x);
    assert forall|i: int, j: int| 0 <= i < j < t.len() implies text_lt(#[trigger] t[i], #[trigger] t[j]) by {
        if j < k {
            assert(t[i] == s[i] && t[j] == s[j]);
        } else if j == k {
            assert(t[i] == s[i] && t[j] == x);
        } else if i < k {
            assert(t[i] == s[i] && t[j] == s[j - 1]);
        } else if i == k {
            assert(t[i] == x && t[j] == s[j - 1]);
            lemma_text_lt_total(s[k], x);
            if j - 1 > k {
                assert(text_lt(s[k], s[j - 1]));
                lemma_text_lt_transitive(x, s[k], s[j - 1]);
            }
        } else {
            assert(t[i] == s[i - 1] && t[j] == s[j - 1]);
        }
    }
    assert forall|y: Seq<char>| t.to_set().contains(y) <==> s.to_set().insert(x).contains(y) by {
        if t.contains(y) {
            let i = choose|i: int| 0 <= i < t.len() && t[i] == y;
            if i < k {
                assert(s[i] == y);
            } else if i > k {
                assert(s[i - 1] == y);
            }
        }
        if s.contains(y) {
            let i = choose|i: int| 0 <= i < s.len() && s[i] == y;
            if i < k {
                assert(t[i] == y);
            } else {
                assert(t[i + 1] == y);
            }
        }
        if y == x {
            assert(t[k] == y);
        }
    }
    assert(t.to_set() =~= s.to_set().insert(x));
}

/// Texts in ascending order, each once, are fixed by which texts they are:
/// sorting and deduplicating names gives the same list whatever order they
/// were found in.
pub proof fn law_ascending_texts_are_determined(a: Seq<Seq<char>>, b: Seq<Seq<char>>)
    requires
        texts_ascending(a),
        texts_ascending(b),
        a.to_set() == b.to_set(),
    ensures
        a == b,
{
    let lt = |x: Seq<char>, y: Seq<char>| text_lt(x, y);
    assert forall|x: Seq<char>| !#[trigger] lt(x, x) by {
        lemma_text_lt_irreflexive(x);
    }
    assert forall|x: Seq<char>, y: Seq<char>| !(#[trigger] lt(x, y) && #[trigger] lt(y, x)) by {
        lemma_text_lt_total(x, y);
    }
    assert forall|i: int, j: int| 0 <= i < j < a.len() implies #[trigger] lt(a[i], a[j]) by {
        assert(text_lt(a[i], a[j]));
    }
    assert forall|i: int, j: int| 0 <= i < j < b.len() implies #[trigger] lt(b[i], b[j]) by {
        assert(text_lt(b[i], b[j]));
    }
    lemma_ascending_determined(a, b, lt);
}

/// The texts in ascending order, each once (what sorting and then
/// deduplicating a list of names gives).
pub fn sorted_unique_texts(v: Vec<String>) -> (r: Vec<String>)
    ensures
        texts_ascending(texts(r@)),
        texts(r@).to_set() == texts(v@).to_set(),
{
    let ghost all = texts(v@);
    let mut rest = v;
    let mut out: Vec<String> = Vec::new();
    let mut k: usize = 0;
    let n = rest.len();
    proof {
        assert(all.take(0).to_set() =~= Set::empty());
        assert(texts(out@).to_set() =~= Set::empty());
    }
    while 0 < rest.len()
        invariant
            k + rest@.len() == n,
            n == all.len(),
            texts(rest@) == all.skip(k as int),
            texts_ascending(texts(out@)),
            texts(out@).to_set() == all.take(k as int).to_set(),
        decreases rest.len(),
    {
        let ghost before = rest@;
        let x = rest.remove(0);
        let ghost s = texts(out@);
        proof {
            assert(texts(before)[0] == before[0]@);
            assert(all.skip(k as int)[0] == all[k as int]);
            assert(x@ == all[k as int]);
            assert(texts(rest@) =~= texts(before).skip(1));
            assert(all.skip(k as int).skip(1) =~= all.skip(k + 1));
            let t = all.take(k as int);
            assert(all.take(k + 1) == t.push(all[k as int]));
            assert forall|y| t.push(all[k as int]).to_set().contains(y) <==> t.to_set().insert(
                all[k as int],
            ).contains(y) by {
                if t.push(all[k as int]).contains(y) {
                    let i = choose|i: int| 0 <= i < t.len() + 1 && t.push(all[k as int])[i] == y;
                    if i < t.len() {
                        assert(t[i] == y);
                    }
                }
                if t.contains(y) {
                    let i = choose|i: int| 0 <= i < t.len() && t[i] == y;
                    assert(t.push(all[k as int])[i] == y);
                }
                if y == all[k as int] {
                    assert(t.push(all[k as int])[t.len() as int] == y);
                }
            }
            assert(t.push(all[k as int]).to_set() =~= t.to_set().insert(all[k as int]));
        }
        let mut j: usize = 0;
        while j < out.len() && text_less(out[j].as_str(), x.as_str())
            invariant
                s == texts(out@),
                j <= out@.len(),
                forall|i: int| 0 <= i < j ==> text_lt(#[trigger] s[i], x@),
            decreases out.len() - j,
        {
            assert(s[j as int] == out@[j as int]@);
            j += 1;
        }
        if j < out.len() && crate::chars::str_eq(out[j].as_str(), x.as_str()) {
            proof {
                assert(s[j as int] == x@);
                assert(s.to_set().insert(x@) =~= s.to_set());
            }
        } else {
            proof {
                if j < s.len() {
                    assert(s[j as int] == out@[j as int]@);
                }
                lemma_insert_text_ascending(s, j as int, x@);
            }
            out.insert(j, x);
            assert(texts(out@) =~= s.insert(j as int, x@));
        }
        k += 1;
    }
    proof {
        assert(all.take(n as int) == all);
    }
    out
}

/// The report of a native package's source scan.
pub struct PackageNativeRustSourceScan {
    pub tool: String,
    pub selected_graph: String,
    pub worker_thread_parallelism_detected: bool,
    pub native_parallel_backends: Vec<String>,
    pub unsafe_detected: bool,
    pub ffi_detected: bool,
    pub filesystem_detected: bool,
    pub network_detected: bool,
    pub build_script_present: bool,
    pub complete: bool,
    pub errors: Vec<String>,
}

/// The report of a finished scan, with the errors met while reading: the
/// backends sorted and deduplicated, worker-thread parallelism when there is
/// a backend or a thread spawn, and complete when nothing failed.
pub fn native_source_scan_report(scan: NativeSemanticScanAccumulator, errors: Vec<String>) -> (r:
    PackageNativeRustSourceScan)
    ensures
        r.tool@ == "rss-native-source-scan"@,
        r.selected_graph@ == "package-native-rust"@,
        texts_ascending(texts(r.native_parallel_backends@)),
        texts(r.native_parallel_backends@).to_set() == texts(scan.native_parallel_backends@).to_set(),
        r.worker_thread_parallelism_detected == (scan.native_parallel_backends@.len() > 0 || scan.thread_detected),
        r.unsafe_detected == scan.unsafe_detected,
        r.ffi_detected == scan.ffi_detected,
        r.filesystem_detected == scan.filesystem_detected,
        r.network_detected == scan.network_detected,
        r.build_script_present == scan.build_script_present,
        r.complete == (errors@.len() == 0),
        r.errors@ == errors@,
{
    let had_backends = scan.native_parallel_backends.len() > 0;
    let ghost before = texts(scan.native_parallel_backends@);
    let backends = sorted_unique_texts(scan.native_parallel_backends);
    proof {
        if had_backends {
            assert(before.to_set().contains(before[0]));
            assert(texts(backends@).to_set().contains(before[0]));
        } else {
            assert(before.to_set() =~= Set::empty());
            if backends@.len() > 0 {
                assert(texts(backends@).to_set().contains(texts(backends@)[0]));
            }
        }
    }
    let worker = backends.len() > 0 || scan.thread_detected;
    let complete = errors.len() == 0;
    PackageNativeRustSourceScan {
        tool: "rss-native-source-scan".to_string(),
        selected_graph: "package-native-rust".to_string(),
        worker_thread_parallelism_detected: worker,
        native_parallel_backends: backends,
        unsafe_detected: scan.unsafe_detected,
        ffi_detected: scan.ffi_detected,
        filesystem_detected: scan.filesystem_detected,
        network_detected: scan.network_detected,
        build_script_present: scan.build_script_present,
        complete,
        errors,
    }
}

// ---------------------------------------------------------------------------
// Marker laws
// ---------------------------------------------------------------------------

/// A comment-free source that names any network client, raw socket or URL
/// scheme (in any letter case) is flagged as using the network: `reqwest`,
/// `ureq`, `curl`, `TcpStream`, `UdpSocket`, `http://`, `https://`; and no
/// other text flags it.
pub proof fn law_network_markers(s: Seq<char>)
    ensures
        contains_seq(ascii_lower(s), "reqwest"@) ==> mentions_network(s),
        contains_seq(ascii_lower(s), "ureq"@) ==> mentions_network(s),
        contains_seq(ascii_lower(s), "curl"@) ==> mentions_network(s),
        contains_seq(ascii_lower(s), "tcpstream"@) ==> mentions_network(s),
        contains_seq(ascii_lower(s), "udpsocket"@) ==> mentions_network(s),
        contains_seq(ascii_lower(s), "http://"@) ==> mentions_network(s),
        contains_seq(ascii_lower(s), "https://"@) ==> mentions_network(s),
        mentions_network(s) ==> (contains_seq(ascii_lower(s), "reqwest"@) || contains_seq(ascii_lower(s), "ureq"@)
            || contains_seq(ascii_lower(s), "curl"@) || contains_seq(ascii_lower(s), "tcpstream"@) || contains_seq(
            ascii_lower(s),
            "udpsocket"@,
        ) || contains_seq(ascii_lower(s), "http://"@) || contains_seq(ascii_lower(s), "https://"@)),
{
}

/// A build script that names a URL scheme, an HTTP client or download tool
/// (`reqwest`, `ureq`, `curl`, `wget`), `git clone`, `git2` or a raw TCP
/// stream, in any letter case, may download code; no other text marks it.
pub proof fn law_download_markers(s: Seq<char>)
    ensures
        contains_seq(ascii_lower(s), "http://"@) ==> may_download(s),
        contains_seq(ascii_lower(s), "https://"@) ==> may_download(s),
        contains_seq(ascii_lower(s), "reqwest"@) ==> may_download(s),
        contains_seq(ascii_lower(s), "ureq"@) ==> may_download(s),
        contains_seq(ascii_lower(s), "curl"@) ==> may_download(s),
        contains_seq(ascii_lower(s), "wget"@) ==> may_download(s),
        contains_seq(ascii_lower(s), "git clone"@) ==> may_download(s),
        contains_seq(ascii_lower(s), "git2"@) ==> may_download(s),
        contains_seq(ascii_lower(s), "tcpstream"@) ==> may_download(s),
        may_download(s) ==> (contains_seq(ascii_lower(s), "http://"@) || contains_seq(ascii_lower(s), "https://"@)
            || contains_seq(ascii_lower(s), "reqwest"@) || contains_seq(ascii_lower(s), "ureq"@) || contains_seq(
            ascii_lower(s),
            "curl"@,
        ) || contains_seq(ascii_lower(s), "wget"@) || contains_seq(ascii_lower(s), "git clone"@) || contains_seq(
            ascii_lower(s),
            "git2"@,
        ) || contains_seq(ascii_lower(s), "tcpstream"@)),
{
}

/// A build script that reads `env::var` (and so `env::var_os`) or uses
/// `env!(` (and so `option_env!(`) reads the environment; no other text
/// marks it.
pub proof fn law_environment_markers(s: Seq<char>)
    ensures
        contains_seq(s, "env::var"@) ==> reads_environment(s),
        contains_seq(s, "env!("@) ==> reads_environment(s),
        reads_environment(s) ==> (contains_seq(s, "env::var"@) || contains_seq(s, "env!("@)),
{
}

/// A comment-free source naming `std::thread`, `thread::spawn` or `.spawn(`
/// spawns threads; one naming `std::fs`, `fs::` or `File::` touches the file
/// system; one declaring a block with the C or system ABI uses FFI.
pub proof fn law_thread_filesystem_ffi_markers(s: Seq<char>)
    ensures
        contains_seq(s, "std"@ + "::thread"@) ==> mentions_threads(s),
        contains_seq(s, "thread::spawn"@) ==> mentions_threads(s),
        contains_seq(s, ".spawn("@) ==> mentions_threads(s),
        contains_seq(s, "std"@ + "::fs"@) ==> mentions_filesystem(s),
        contains_seq(s, "fs::"@) ==> mentions_filesystem(s),
        contains_seq(s, "File::"@) ==> mentions_filesystem(s),
        contains_seq(s, kw_ext() + " \"C\""@) ==> mentions_ffi(s),
        contains_seq(s, kw_ext() + " \"system\""@) ==> mentions_ffi(s),
        mentions_threads(s) ==> (contains_seq(s, "std"@ + "::thread"@) || contains_seq(s, "thread::spawn"@)
            || contains_seq(s, ".spawn("@)),
        mentions_filesystem(s) ==> (contains_seq(s, "std"@ + "::fs"@) || contains_seq(s, "fs::"@) || contains_seq(
            s,
            "File::"@,
        )),
        mentions_ffi(s) ==> (contains_seq(s, kw_ext() + " \"C\""@) || contains_seq(s, kw_ext() + " \"system\""@)),
{
}

} // verus!
