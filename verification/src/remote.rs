//! Helpers for importing review comments from hosted services: remote URL
//! parsing, URL and Base64 encoding, authorization headers, and the text of
//! Atlassian documents.

use vstd::prelude::*;
use vstd::string::StringSliceAdditionalSpecFns;
use crate::text::{
    after_char, append_chars, append_str, before_char, chars_of, find_at, first_at, push_char,
    remove_all, remove_copies, slice_chars, starts_with, string_of, text_or_empty, trim_end_all,
    trim_end_copies, trim_start_all, trim_start_copies, has_prefix, has_suffix, occurs_at, is_first_at,
    lemma_first_unique,
};

verus! {

/// The part of a remote URL that names the repository on a host: without
/// trailing `.git`, without the `git@host:`, `https://host/` and
/// `http://host/` forms of the host, without leading slashes.
pub open spec fn gitlab_path(remote: Seq<char>, host: Seq<char>) -> Seq<char> {
    trim_start_all(
        remove_all(
            remove_all(
                remove_all(trim_end_all(remote, ".git"@), "git@"@ + host + ":"@),
                "https://"@ + host + "/"@,
            ),
            "http://"@ + host + "/"@,
        ),
        seq!['/'],
    )
}

/// Determines the GitLab project path from a remote URL on `host`, or
/// `None` where nothing is left of it.
pub fn parse_gitlab_project(remote: &str, host: &str) -> (r: Option<String>)
    ensures
        match r {
            Some(p) => gitlab_path(remote@, host@).len() > 0 && p@ == gitlab_path(remote@, host@),
            None => gitlab_path(remote@, host@).len() == 0,
        },
{
    let s = chars_of(remote);
    let h = chars_of(host);
    let suffix = chars_of(".git");
    let mut ssh = chars_of("git@");
    append_chars(&mut ssh, &h);
    append_str(&mut ssh, ":");
    let mut https = chars_of("https://");
    append_chars(&mut https, &h);
    append_str(&mut https, "/");
    let mut http = chars_of("http://");
    append_chars(&mut http, &h);
    append_str(&mut http, "/");
    let slash = vec!['/'];
    assert(slash@ =~= seq!['/']);
    let a = trim_end_copies(&s, &suffix);
    let b = remove_copies(&a, &ssh);
    let c = remove_copies(&b, &https);
    let d = remove_copies(&c, &http);
    let e = trim_start_copies(&d, &slash);
    if e.len() == 0 {
        None
    } else {
        Some(string_of(&e))
    }
}

/// The first two slash-separated parts of a text, where it has at least two.
pub open spec fn two_parts(s: Seq<char>) -> Option<(Seq<char>, Seq<char>)> {
    if first_at(s, seq!['/']) is Some {
        Some((before_char(s, '/'), before_char(after_char(s, '/'), '/')))
    } else {
        None
    }
}

fn split_two(s: &[char]) -> (r: Option<(String, String)>)
    ensures
        match r {
            Some((a, b)) => two_parts(s@) == Some((a@, b@)),
            None => two_parts(s@) is None,
        },
{
    let slash = vec!['/'];
    assert(slash@ =~= seq!['/']);
    match find_at(s, &slash) {
        None => None,
        Some(i) => {
            assert(i + 1 <= s@.len());
            assert(i < s.len());
            let first = slice_chars(s, 0, i);
            let rest = slice_chars(s, i + 1, s.len());
            let second = match find_at(&rest, &slash) {
                Some(j) => slice_chars(&rest, 0, j),
                None => rest,
            };
            Some((string_of(&first), string_of(&second)))
        },
    }
}

/// The workspace and repository part of a Bitbucket remote URL.
pub open spec fn bitbucket_path(remote: Seq<char>) -> Seq<char> {
    trim_start_all(
        remove_all(
            remove_all(remove_all(trim_end_all(remote, ".git"@), "git@bitbucket.org:"@), "https://bitbucket.org/"@),
            "http://bitbucket.org/"@,
        ),
        seq!['/'],
    )
}

/// Determines the Bitbucket workspace and repository from a remote URL.
pub fn parse_bitbucket_workspace_repo(remote: &str) -> (r: Option<(String, String)>)
    ensures
        match r {
            Some((w, p)) => two_parts(bitbucket_path(remote@)) == Some((w@, p@)),
            None => two_parts(bitbucket_path(remote@)) is None,
        },
{
    let s = chars_of(remote);
    let a = trim_end_copies(&s, &chars_of(".git"));
    let b = remove_copies(&a, &chars_of("git@bitbucket.org:"));
    let c = remove_copies(&b, &chars_of("https://bitbucket.org/"));
    let d = remove_copies(&c, &chars_of("http://bitbucket.org/"));
    let slash = vec!['/'];
    assert(slash@ =~= seq!['/']);
    let e = trim_start_copies(&d, &slash);
    split_two(&e)
}

/// The owner and repository part of a GitHub remote URL.
pub open spec fn github_path(remote: Seq<char>) -> Seq<char> {
    remove_all(
        remove_all(remove_all(trim_end_all(remote, ".git"@), "git@github.com:"@), "https://github.com/"@),
        "http://github.com/"@,
    )
}

/// Determines the GitHub owner and repository from a remote URL.
pub fn parse_github_owner_repo(remote: &str) -> (r: Option<(String, String)>)
    ensures
        match r {
            Some((o, p)) => two_parts(github_path(remote@)) == Some((o@, p@)),
            None => two_parts(github_path(remote@)) is None,
        },
{
    let s = chars_of(remote);
    let a = trim_end_copies(&s, &chars_of(".git"));
    let b = remove_copies(&a, &chars_of("git@github.com:"));
    let c = remove_copies(&b, &chars_of("https://github.com/"));
    let d = remove_copies(&c, &chars_of("http://github.com/"));
    split_two(&d)
}

/// A GitLab host name without scheme or trailing slashes.
pub open spec fn bare_host(host: Seq<char>) -> Seq<char> {
    trim_end_all(trim_start_all(trim_start_all(host, "https://"@), "http://"@), seq!['/'])
}

/// Strips the scheme and trailing slashes from a host name.
pub fn normalize_host(host: &str) -> (r: String)
    ensures
        r@ == bare_host(host@),
{
    let h = chars_of(host);
    let a = trim_start_copies(&h, &chars_of("https://"));
    let b = trim_start_copies(&a, &chars_of("http://"));
    let slash = vec!['/'];
    assert(slash@ =~= seq!['/']);
    let c = trim_end_copies(&b, &slash);
    string_of(&c)
}

/// A Jira base URL: the host without trailing slashes, with `https://` in
/// front unless it names a scheme already.
pub open spec fn jira_base(host: Seq<char>) -> Seq<char> {
    let h = trim_end_all(host, seq!['/']);
    if !has_prefix(h, "http://"@) && !has_prefix(h, "https://"@) {
        "https://"@ + h
    } else {
        h
    }
}

/// The Jira base URL for a host.
pub fn jira_host_url(host: &str) -> (r: String)
    ensures
        r@ == jira_base(host@),
{
    let slash = vec!['/'];
    assert(slash@ =~= seq!['/']);
    let h = trim_end_copies(&chars_of(host), &slash);
    if !starts_with(&h, &chars_of("http://")) && !starts_with(&h, &chars_of("https://")) {
        let mut out = chars_of("https://");
        append_chars(&mut out, &h);
        string_of(&out)
    } else {
        string_of(&h)
    }
}

/// Bytes kept as they are in URL encoding.
pub open spec fn is_unreserved(b: u8) -> bool {
    (97 <= b <= 122) || (65 <= b <= 90) || (48 <= b <= 57) || b == 45 || b == 95 || b == 46 || b == 126
}

/// The uppercase hexadecimal digit for a value below sixteen.
pub open spec fn hex_upper(n: int) -> char {
    if n < 10 {
        (48 + n) as char
    } else {
        (55 + n) as char
    }
}

fn hex_upper_char(n: u8) -> (c: char)
    requires
        n < 16,
    ensures
        c == hex_upper(n as int),
{
    match n {
        0 => '0',
        1 => '1',
        2 => '2',
        3 => '3',
        4 => '4',
        5 => '5',
        6 => '6',
        7 => '7',
        8 => '8',
        9 => '9',
        10 => 'A',
        11 => 'B',
        12 => 'C',
        13 => 'D',
        14 => 'E',
        _ => 'F',
    }
}

/// Percent-encoding of bytes: unreserved bytes as they are, others as `%`
/// and two uppercase hexadecimal digits.
pub open spec fn url_encoded(b: Seq<u8>) -> Seq<char>
    decreases b.len(),
{
    if b.len() == 0 {
        Seq::empty()
    } else {
        url_encoded(b.drop_last()) + if is_unreserved(b.last()) {
            seq![b.last() as char]
        } else {
            seq!['%', hex_upper((b.last() / 16) as int), hex_upper((b.last() % 16) as int)]
        }
    }
}

pub(crate) fn ascii_char(b: u8) -> (c: char)
    requires
        b < 128,
    ensures
        c == b as char,
{
    let table = [
        '\x00', '\x01', '\x02', '\x03', '\x04', '\x05', '\x06', '\x07', '\x08', '\t', '\n', '\x0b',
        '\x0c', '\r', '\x0e', '\x0f', '\x10', '\x11', '\x12', '\x13', '\x14', '\x15', '\x16',
        '\x17', '\x18', '\x19', '\x1a', '\x1b', '\x1c', '\x1d', '\x1e', '\x1f', ' ', '!', '"',
        '#', '$', '%', '&', '\'', '(', ')', '*', '+', ',', '-', '.', '/', '0', '1', '2', '3', '4',
        '5', '6', '7', '8', '9', ':', ';', '<', '=', '>', '?', '@', 'A', 'B', 'C', 'D', 'E', 'F',
        'G', 'H', 'I', 'J', 'K', 'L', 'M', 'N', 'O', 'P', 'Q', 'R', 'S', 'T', 'U', 'V', 'W', 'X',
        'Y', 'Z', '[', '\\', ']', '^', '_', '`', 'a', 'b', 'c', 'd', 'e', 'f', 'g', 'h', 'i', 'j',
        'k', 'l', 'm', 'n', 'o', 'p', 'q', 'r', 's', 't', 'u', 'v', 'w', 'x', 'y', 'z', '{', '|',
        '}', '~', '\x7f',
    ];
    assert(table@.len() == 128);
    assert(forall|k: int| 0 <= k < 128 ==> #[trigger] table@[k] == k as char);
    table[b as usize]
}

/// Percent-encodes the UTF-8 bytes of a text.
pub fn urlencoding(s: &str) -> (r: String)
    ensures
        r@ == url_encoded(s.spec_bytes()),
{
    let bytes = s.as_bytes();
    let mut out: Vec<char> = Vec::new();
    let mut i: usize = 0;
    while i < bytes.len()
        invariant
            i <= bytes@.len(),
            bytes@ == s.spec_bytes(),
            out@ == url_encoded(bytes@.subrange(0, i as int)),
        decreases bytes.len() - i,
    {
        let b = bytes[i];
        let ghost post = bytes@.subrange(0, i + 1);
        assert(post.drop_last() =~= bytes@.subrange(0, i as int));
        assert(post.last() == b);
        if (b >= 97 && b <= 122) || (b >= 65 && b <= 90) || (b >= 48 && b <= 57) || b == 45 || b == 95
            || b == 46 || b == 126 {
            out.push(ascii_char(b));
        } else {
            out.push('%');
            out.push(hex_upper_char(b / 16));
            out.push(hex_upper_char(b % 16));
        }
        assert(out@ =~= url_encoded(post));
        i = i + 1;
    }
    assert(bytes@.subrange(0, bytes@.len() as int) =~= bytes@);
    string_of(&out)
}


/// The Base64 digit for a value below 64.
pub open spec fn b64_char(n: u8) -> char {
    if n < 26 {
        (65 + n) as char
    } else if n < 52 {
        (71 + n) as char
    } else if n < 62 {
        (n - 4) as char
    } else if n == 62 {
        '+'
    } else {
        '/'
    }
}

/// The bytes of `b` after its first group of three.
pub open spec fn after_group(b: Seq<u8>) -> Seq<u8> {
    b.subrange(if b.len() >= 3 { 3 } else { b.len() as int }, b.len() as int)
}

/// The four Base64 characters for the first group of up to three bytes.
pub open spec fn b64_group(b: Seq<u8>) -> Seq<char> {
    let b0 = b[0];
    let b1: u8 = if b.len() > 1 { b[1] } else { 0 };
    let b2: u8 = if b.len() > 2 { b[2] } else { 0 };
    seq![
        b64_char((b0 >> 2u8) & 63u8),
        b64_char(((b0 & 3u8) << 4u8) | ((b1 >> 4u8) & 15u8)),
        if b.len() > 1 { b64_char(((b1 & 15u8) << 2u8) | ((b2 >> 6u8) & 3u8)) } else { '=' },
        if b.len() > 2 { b64_char(b2 & 63u8) } else { '=' },
    ]
}

/// Standard Base64 with padding.
pub open spec fn base64_text(b: Seq<u8>) -> Seq<char>
    decreases b.len(),
{
    if b.len() == 0 {
        Seq::empty()
    } else {
        b64_group(b) + base64_text(after_group(b))
    }
}

fn b64_digit(n: u8) -> (c: char)
    requires
        n < 64,
    ensures
        c == b64_char(n),
{
    let table = [
        'A', 'B', 'C', 'D', 'E', 'F', 'G', 'H', 'I', 'J', 'K', 'L', 'M', 'N', 'O', 'P', 'Q', 'R',
        'S', 'T', 'U', 'V', 'W', 'X', 'Y', 'Z', 'a', 'b', 'c', 'd', 'e', 'f', 'g', 'h', 'i', 'j',
        'k', 'l', 'm', 'n', 'o', 'p', 'q', 'r', 's', 't', 'u', 'v', 'w', 'x', 'y', 'z', '0', '1',
        '2', '3', '4', '5', '6', '7', '8', '9', '+', '/',
    ];
    assert(forall|k: u8| 0 <= k < 64 ==> #[trigger] table@[k as int] == b64_char(k));
    table[n as usize]
}

/// Encodes bytes as standard Base64 with padding.
pub fn base64_encode(input: &[u8]) -> (r: String)
    ensures
        r@ == base64_text(input@),
{
    let mut out: Vec<char> = Vec::new();
    let len = input.len();
    let mut i: usize = 0;
    assert(input@.subrange(0, input@.len() as int) =~= input@);
    while i < len
        invariant
            len == input@.len(),
            i <= len,
            out@ + base64_text(input@.subrange(i as int, len as int)) == base64_text(input@),
        decreases len - i,
    {
        let ghost rest = input@.subrange(i as int, len as int);
        let b0 = input[i];
        let b1: u8 = if len - i > 1 { input[i + 1] } else { 0 };
        let b2: u8 = if len - i > 2 { input[i + 2] } else { 0 };
        let ghost old_out = out@;
        let x0 = (b0 >> 2) & 0x3F;
        let x1 = ((b0 & 0x03) << 4) | ((b1 >> 4) & 0x0F);
        let x2 = ((b1 & 0x0F) << 2) | ((b2 >> 6) & 0x03);
        let x3 = b2 & 0x3F;
        assert(x0 < 64 && x1 < 64 && x2 < 64 && x3 < 64) by (bit_vector)
            requires
                x0 == (b0 >> 2) & 0x3F,
                x1 == ((b0 & 0x03) << 4) | ((b1 >> 4) & 0x0F),
                x2 == ((b1 & 0x0F) << 2) | ((b2 >> 6) & 0x03),
                x3 == b2 & 0x3F,
        ;
        out.push(b64_digit(x0));
        out.push(b64_digit(x1));
        if len - i > 1 {
            out.push(b64_digit(x2));
        } else {
            out.push('=');
        }
        if len - i > 2 {
            out.push(b64_digit(x3));
        } else {
            out.push('=');
        }
        assert(out@ =~= old_out + b64_group(rest));
        let next = if len - i >= 3 { i + 3 } else { len };
        assert(after_group(rest) =~= input@.subrange(next as int, len as int));
        i = next;
    }
    assert(input@.subrange(len as int, len as int) =~= Seq::<u8>::empty());
    assert(out@ =~= base64_text(input@));
    string_of(&out)
}

/// The Base64 text of `n` bytes has four characters for each started group
/// of three.
pub proof fn law_base64_length(b: Seq<u8>)
    ensures
        base64_text(b).len() == 4 * ((b.len() + 2) / 3),
    decreases b.len(),
{
    if b.len() > 0 {
        law_base64_length(after_group(b));
    }
}

proof fn lemma_remove_absent(s: Seq<char>, x: Seq<char>)
    requires
        x.len() > 0,
        forall|i: int| !occurs_at(s, x, i),
    ensures
        remove_all(s, x) == s,
{
    assert(first_at(s, x) is None);
}

proof fn lemma_remove_leading(x: Seq<char>, q: Seq<char>)
    requires
        x.len() > 0,
    ensures
        remove_all(x + q, x) == remove_all(q, x),
{
    let s = x + q;
    assert(s.subrange(0, x.len() as int) =~= x);
    assert(is_first_at(s, x, 0));
    lemma_first_unique(s, x, 0);
    assert(s.subrange(x.len() as int, s.len() as int) =~= q);
    assert(s.subrange(0, 0) =~= Seq::<char>::empty());
    assert(Seq::<char>::empty() + remove_all(q, x) =~= remove_all(q, x));
}

/// Where `x` occurs in neither `y` nor `q` and lacks `y`'s last character,
/// it does not occur in `y + q` either.
proof fn lemma_absent_in_concat(y: Seq<char>, q: Seq<char>, x: Seq<char>)
    requires
        y.len() > 0,
        forall|i: int| !occurs_at(y, x, i),
        forall|i: int| !occurs_at(q, x, i),
        forall|k: int| 0 <= k < x.len() ==> x[k] != y.last(),
    ensures
        forall|i: int| !occurs_at(y + q, x, i),
{
    let s = y + q;
    assert forall|i: int| !occurs_at(s, x, i) by {
        if occurs_at(s, x, i) {
            if i >= y.len() {
                assert(q.subrange(i - y.len(), i - y.len() + x.len()) =~= s.subrange(i, i + x.len()));
                assert(occurs_at(q, x, i - y.len()));
            } else if i + x.len() <= y.len() {
                assert(y.subrange(i, i + x.len()) =~= s.subrange(i, i + x.len()));
                assert(occurs_at(y, x, i));
            } else {
                let k = y.len() - 1 - i;
                assert(s.subrange(i, i + x.len())[k] == s[y.len() - 1]);
                assert(x[k] == y.last());
            }
        }
    }
}

/// Where `y` ends with a character that `x` lacks and `q` does not end with
/// `x`, `y + q` does not end with `x`.
proof fn lemma_no_suffix_concat(y: Seq<char>, q: Seq<char>, x: Seq<char>)
    requires
        y.len() > 0,
        !has_suffix(q, x),
        forall|k: int| 0 <= k < x.len() ==> x[k] != y.last(),
    ensures
        !has_suffix(y + q, x),
{
    let s = y + q;
    if has_suffix(s, x) {
        if x.len() <= q.len() {
            assert(q.subrange(q.len() - x.len(), q.len() as int) =~= s.subrange(s.len() - x.len(), s.len() as int));
        } else {
            let k = y.len() - 1 - (s.len() - x.len());
            assert(s.subrange(s.len() - x.len(), s.len() as int)[k] == s[y.len() - 1]);
            assert(x[k] == y.last());
        }
    }
}

/// `h` is a host name as remote URLs hold it: not empty, without `:` or `/`.
pub open spec fn plain_host(h: Seq<char>) -> bool {
    h.len() > 0 && forall|k: int| 0 <= k < h.len() ==> h[k] != ':' && h[k] != '/'
}

/// `p` is a project path that the three URL forms of host `h` can carry:
/// not empty, not starting with `/`, not ending with `.git`, and holding
/// none of the host forms.
pub open spec fn plain_project(p: Seq<char>, h: Seq<char>) -> bool {
    &&& p.len() > 0
    &&& p[0] != '/'
    &&& !has_suffix(p, ".git"@)
    &&& forall|i: int| !occurs_at(p, "git@"@ + h + ":"@, i)
    &&& forall|i: int| !occurs_at(p, "https://"@ + h + "/"@, i)
    &&& forall|i: int| !occurs_at(p, "http://"@ + h + "/"@, i)
}

proof fn lemma_ssh_not_in_https(h: Seq<char>)
    requires
        plain_host(h),
    ensures
        forall|i: int| !occurs_at("https://"@ + h + "/"@, "git@"@ + h + ":"@, i),
{
    reveal_strlit("https://");
    reveal_strlit("/");
    reveal_strlit("git@");
    reveal_strlit(":");
    let y = "https://"@ + h + "/"@;
    let x = "git@"@ + h + ":"@;
    assert forall|i: int| !occurs_at(y, x, i) by {
        if occurs_at(y, x, i) {
            let e = i + x.len() - 1;
            assert(y.subrange(i, i + x.len())[x.len() - 1] == y[e]);
            assert(x[x.len() - 1] == ':');
            if 8 <= e < 8 + h.len() {
                assert(y[e] == h[e - 8]);
            }
            assert(e == 5);
            assert(y.subrange(i, i + x.len())[0] == y[i]);
            assert(x[0] == 'g');
            assert(y[0] == 'h');
        }
    }
}

proof fn lemma_host_forms(h: Seq<char>)
    requires
        plain_host(h),
    ensures
        forall|k: int| 0 <= k < ("git@"@ + h + ":"@).len() ==> ("git@"@ + h + ":"@)[k] != '/',
        forall|k: int| 0 <= k < (".git"@).len() ==> (".git"@)[k] != '/' && (".git"@)[k] != ':',
        ("git@"@ + h + ":"@).len() > 0,
        ("https://"@ + h + "/"@).len() > 0,
        ("http://"@ + h + "/"@).len() > 0,
        ("git@"@ + h + ":"@).last() == ':',
        ("https://"@ + h + "/"@).last() == '/',
{
    reveal_strlit("https://");
    reveal_strlit("http://");
    reveal_strlit("/");
    reveal_strlit("git@");
    reveal_strlit(":");
    reveal_strlit(".git");
    let x = "git@"@ + h + ":"@;
    assert forall|k: int| 0 <= k < x.len() implies x[k] != '/' by {
        if 4 <= k < 4 + h.len() {
            assert(x[k] == h[k - 4]);
        }
    }
}

/// The project path is read back from each URL form of a GitLab host:
/// `git@host:path.git`, `https://host/path` and, with nothing after the
/// host, no path at all.
pub proof fn law_gitlab_path_read_back(h: Seq<char>, p: Seq<char>)
    requires
        plain_host(h),
        plain_project(p, h),
    ensures
        gitlab_path("git@"@ + h + ":"@ + p + ".git"@, h) == p,
        gitlab_path("https://"@ + h + "/"@ + p, h) == p,
        gitlab_path("https://"@ + h + "/"@, h).len() == 0,
{
    reveal_strlit("/");
    let ssh = "git@"@ + h + ":"@;
    let https = "https://"@ + h + "/"@;
    let http = "http://"@ + h + "/"@;
    let g = ".git"@;
    lemma_host_forms(h);
    reveal_strlit(".git");
    assert(g.len() == 4);
    assert(seq!['/'].len() == 1);
    // the SSH form
    let r1 = ssh + p + g;
    assert(has_suffix(r1, g)) by {
        assert(r1.subrange(r1.len() - 4, r1.len() as int) =~= g);
    }
    assert(r1.subrange(0, r1.len() - g.len()) =~= ssh + p);
    lemma_no_suffix_concat(ssh, p, g);
    assert(trim_end_all(ssh + p, g) == ssh + p);
    assert(trim_end_all(r1, g) == ssh + p);
    lemma_remove_leading(ssh, p);
    lemma_remove_absent(p, ssh);
    lemma_remove_absent(p, https);
    lemma_remove_absent(p, http);
    assert(!has_prefix(p, seq!['/'])) by {
        if has_prefix(p, seq!['/']) {
            assert(p.subrange(0, 1)[0] == p[0]);
        }
    }
    assert(trim_start_all(p, seq!['/']) == p);
    // the HTTPS form
    let r2 = https + p;
    lemma_no_suffix_concat(https, p, g);
    assert(trim_end_all(r2, g) == r2);
    lemma_ssh_not_in_https(h);
    lemma_absent_in_concat(https, p, ssh);
    lemma_remove_absent(r2, ssh);
    lemma_remove_leading(https, p);
    // the bare host
    assert(!has_suffix(https, g)) by {
        if has_suffix(https, g) {
            assert(https.subrange(https.len() - 4, https.len() as int)[3] == https.last());
        }
    }
    assert(trim_end_all(https, g) == https);
    lemma_remove_absent(https, ssh);
    assert(https + Seq::<char>::empty() =~= https);
    lemma_remove_leading(https, Seq::<char>::empty());
    lemma_remove_absent(Seq::<char>::empty(), https);
    assert forall|i: int| !occurs_at(Seq::<char>::empty(), http, i) by {}
    lemma_remove_absent(Seq::<char>::empty(), http);
}

proof fn lemma_https_not_after_http(h: Seq<char>, p: Seq<char>)
    requires
        plain_host(h),
        forall|i: int| !occurs_at(p, "https://"@ + h + "/"@, i),
    ensures
        forall|i: int| !occurs_at("http://"@ + h + "/"@ + p, "https://"@ + h + "/"@, i),
{
    reveal_strlit("https://");
    reveal_strlit("http://");
    reveal_strlit("/");
    let y = "http://"@ + h + "/"@;
    let x = "https://"@ + h + "/"@;
    let s = y + p;
    assert(s == "http://"@ + h + "/"@ + p);
    assert forall|i: int| !occurs_at(s, x, i) by {
        if occurs_at(s, x, i) {
            let w = s.subrange(i, i + x.len());
            if i >= y.len() {
                assert(p.subrange(i - y.len(), i - y.len() + x.len()) =~= w);
                assert(occurs_at(p, x, i - y.len()));
            } else {
                assert(w[5] == x[5]);
                assert(x[5] == ':');
                assert(w[5] == s[i + 5]);
                if i + 5 < y.len() {
                    if 7 <= i + 5 < 7 + h.len() {
                        assert(y[i + 5] == h[i + 5 - 7]);
                    }
                    assert(s[i + 5] == y[i + 5]);
                    assert(i + 5 == 4);
                } else {
                    let d = y.len() - 1 - i;
                    assert(0 <= d <= 4);
                    assert(w[d] == s[y.len() - 1]);
                    assert(s[y.len() - 1] == '/');
                    assert(x[d] != '/');
                }
            }
        }
    }
}

proof fn lemma_ssh_not_in_http(h: Seq<char>)
    requires
        plain_host(h),
    ensures
        forall|i: int| !occurs_at("http://"@ + h + "/"@, "git@"@ + h + ":"@, i),
{
    reveal_strlit("http://");
    reveal_strlit("/");
    reveal_strlit("git@");
    reveal_strlit(":");
    let y = "http://"@ + h + "/"@;
    let x = "git@"@ + h + ":"@;
    assert forall|i: int| !occurs_at(y, x, i) by {
        if occurs_at(y, x, i) {
            let e = i + x.len() - 1;
            assert(y.subrange(i, i + x.len())[x.len() - 1] == y[e]);
            assert(x[x.len() - 1] == ':');
            if 7 <= e < 7 + h.len() {
                assert(y[e] == h[e - 7]);
            }
            assert(e == 4);
        }
    }
}

/// The project path is read back from the `http://host/path.git` form too.
pub proof fn law_gitlab_http_path_read_back(h: Seq<char>, p: Seq<char>)
    requires
        plain_host(h),
        plain_project(p, h),
    ensures
        gitlab_path("http://"@ + h + "/"@ + p + ".git"@, h) == p,
{
    reveal_strlit("/");
    reveal_strlit("http://");
    let ssh = "git@"@ + h + ":"@;
    let https = "https://"@ + h + "/"@;
    let http = "http://"@ + h + "/"@;
    let g = ".git"@;
    lemma_host_forms(h);
    reveal_strlit(".git");
    let r = http + p + g;
    assert(r.subrange(r.len() - 4, r.len() as int) =~= g);
    assert(r.subrange(0, r.len() - g.len()) =~= http + p);
    assert(http.last() == '/');
    assert(has_suffix(r, g));
    lemma_no_suffix_concat(http, p, g);
    assert(trim_end_all(http + p, g) == http + p);
    assert(trim_end_all(r, g) == http + p);
    lemma_ssh_not_in_http(h);
    lemma_absent_in_concat(http, p, ssh);
    lemma_remove_absent(http + p, ssh);
    lemma_https_not_after_http(h, p);
    lemma_remove_absent(http + p, https);
    lemma_remove_leading(http, p);
    lemma_remove_absent(p, http);
    assert(!has_prefix(p, seq!['/'])) by {
        if has_prefix(p, seq!['/']) {
            assert(p.subrange(0, 1)[0] == p[0]);
        }
    }
    assert(trim_start_all(p, seq!['/']) == p);
}

/// The value of a Base64 digit.
pub open spec fn b64_value(c: char) -> u8 {
    let v = c as u32;
    if 65 <= v <= 90 {
        (v - 65) as u8
    } else if 97 <= v <= 122 {
        (v - 71) as u8
    } else if 48 <= v <= 57 {
        (v + 4) as u8
    } else if c == '+' {
        62
    } else {
        63
    }
}

/// The bytes of one group of four Base64 characters, `=` marking bytes
/// that are not there.
pub open spec fn b64_ungroup(g: Seq<char>) -> Seq<u8> {
    let x0 = b64_value(g[0]);
    let x1 = b64_value(g[1]);
    let x2 = b64_value(g[2]);
    let x3 = b64_value(g[3]);
    let b0: u8 = (x0 << 2u8) | (x1 >> 4u8);
    let b1: u8 = ((x1 & 15u8) << 4u8) | (x2 >> 2u8);
    let b2: u8 = ((x2 & 3u8) << 6u8) | x3;
    if g[2] == '=' {
        seq![b0]
    } else if g[3] == '=' {
        seq![b0, b1]
    } else {
        seq![b0, b1, b2]
    }
}

/// Standard Base64 decoding, group by group.
pub open spec fn base64_decoded(t: Seq<char>) -> Seq<u8>
    decreases t.len(),
{
    if t.len() < 4 {
        Seq::empty()
    } else {
        b64_ungroup(t.take(4)) + base64_decoded(t.skip(4))
    }
}

proof fn lemma_b64_digit(n: u8)
    requires
        n < 64,
    ensures
        b64_value(b64_char(n)) == n,
        b64_char(n) != '=',
{
    if n < 26 {
        assert((65 + n) as char as u32 == 65 + n);
    } else if n < 52 {
        assert((71 + n) as char as u32 == 71 + n);
    } else if n < 62 {
        assert((n - 4) as char as u32 == n - 4);
    }
}

proof fn lemma_b64_bits(b0: u8, b1: u8, b2: u8)
    by (bit_vector)
    ensures
        ((((b0 >> 2u8) & 63u8) << 2u8) | ((((b0 & 3u8) << 4u8) | ((b1 >> 4u8) & 15u8)) >> 4u8)) == b0,
        ((((((b0 & 3u8) << 4u8) | ((b1 >> 4u8) & 15u8)) & 15u8) << 4u8) | ((((b1 & 15u8) << 2u8) | ((b2 >> 6u8)
            & 3u8)) >> 2u8)) == b1,
        ((((((b1 & 15u8) << 2u8) | ((b2 >> 6u8) & 3u8)) & 3u8) << 6u8) | (b2 & 63u8)) == b2,
        (b0 >> 2u8) & 63u8 < 64,
        ((b0 & 3u8) << 4u8) | ((b1 >> 4u8) & 15u8) < 64,
        ((b1 & 15u8) << 2u8) | ((b2 >> 6u8) & 3u8) < 64,
        b2 & 63u8 < 64,
{
}

/// `c` is a character of the Base64 alphabet.
pub open spec fn is_b64_digit(c: char) -> bool {
    exists|n: u8| n < 64 && #[trigger] b64_char(n) == c
}

/// The Base64 text of `b` ends with `(3 - len % 3) % 3` padding characters
/// `=`, has no other `=`, and its other characters are Base64 digits.
pub proof fn law_base64_padding(b: Seq<u8>)
    ensures
        ({
            let t = base64_text(b);
            let pad = (3 - b.len() % 3) % 3;
            forall|i: int|
                0 <= i < t.len() ==> (#[trigger] t[i] == '=' <==> i >= t.len() - pad) && (t[i] != '=' ==> is_b64_digit(
                    t[i],
                ))
        }),
    decreases b.len(),
{
    law_base64_length(b);
    if b.len() > 0 {
        let rest = after_group(b);
        law_base64_padding(rest);
        law_base64_length(rest);
        let g = b64_group(b);
        let t = base64_text(b);
        let r = base64_text(rest);
        assert(t == g + r);
        let b0 = b[0];
        let b1: u8 = if b.len() > 1 { b[1] } else { 0 };
        let b2: u8 = if b.len() > 2 { b[2] } else { 0 };
        lemma_b64_bits(b0, b1, b2);
        let x0 = (b0 >> 2u8) & 63u8;
        let x1 = ((b0 & 3u8) << 4u8) | ((b1 >> 4u8) & 15u8);
        let x2 = ((b1 & 15u8) << 2u8) | ((b2 >> 6u8) & 3u8);
        let x3 = b2 & 63u8;
        lemma_b64_digit(x0);
        lemma_b64_digit(x1);
        lemma_b64_digit(x2);
        lemma_b64_digit(x3);
        assert(is_b64_digit(b64_char(x0)));
        assert(is_b64_digit(b64_char(x1)));
        assert(is_b64_digit(b64_char(x2)));
        assert(is_b64_digit(b64_char(x3)));
        if b.len() >= 3 {
            assert(rest.len() == b.len() - 3);
            assert((3 - b.len() % 3) % 3 == (3 - rest.len() % 3) % 3);
            assert forall|i: int| 0 <= i < t.len() implies (#[trigger] t[i] == '=' <==> i >= t.len() - (3 - b.len() % 3)
                % 3) && (t[i] != '=' ==> is_b64_digit(t[i])) by {
                if i >= 4 {
                    assert(t[i] == r[i - 4]);
                }
            }
        } else {
            assert(rest.len() == 0);
            assert(r.len() == 0);
            assert(t =~= g);
        }
    }
}

/// Decoding the Base64 text of any bytes gives the bytes back.
pub proof fn law_base64_round_trip(b: Seq<u8>)
    ensures
        base64_decoded(base64_text(b)) == b,
    decreases b.len(),
{
    if b.len() > 0 {
        let g = b64_group(b);
        let rest = base64_text(after_group(b));
        law_base64_round_trip(after_group(b));
        let t = base64_text(b);
        assert(t == g + rest);
        assert(t.take(4) =~= g);
        assert(t.skip(4) =~= rest);
        let b0 = b[0];
        let b1: u8 = if b.len() > 1 { b[1] } else { 0 };
        let b2: u8 = if b.len() > 2 { b[2] } else { 0 };
        lemma_b64_bits(b0, b1, b2);
        lemma_b64_digit((b0 >> 2u8) & 63u8);
        lemma_b64_digit(((b0 & 3u8) << 4u8) | ((b1 >> 4u8) & 15u8));
        lemma_b64_digit(((b1 & 15u8) << 2u8) | ((b2 >> 6u8) & 3u8));
        lemma_b64_digit(b2 & 63u8);
        if b.len() == 1 {
            assert(b64_ungroup(g) =~= seq![b0]);
            assert(after_group(b) =~= Seq::<u8>::empty());
            assert(b =~= seq![b0]);
        } else if b.len() == 2 {
            assert(b64_ungroup(g) =~= seq![b0, b1]);
            assert(after_group(b) =~= Seq::<u8>::empty());
            assert(b =~= seq![b0, b1]);
        } else {
            assert(b64_ungroup(g) =~= seq![b0, b1, b2]);
            assert(b =~= seq![b0, b1, b2] + after_group(b));
        }
        assert(base64_decoded(t) == b64_ungroup(g) + base64_decoded(rest));
    }
}

/// `t` holds a colon.
pub open spec fn has_colon(t: Seq<char>) -> bool {
    first_at(t, seq![':']) is Some
}

/// The authorization header for a token: Basic authentication with the
/// token Base64-encoded when it holds a colon (`user:password`), a bearer
/// token otherwise.
pub open spec fn auth_header_text(token: &str) -> Seq<char> {
    if has_colon(token@) {
        "Basic "@ + base64_text(token.spec_bytes())
    } else {
        "Bearer "@ + token@
    }
}

fn holds_colon(t: &str) -> (r: bool)
    ensures
        r == has_colon(t@),
{
    let c = vec![':'];
    assert(c@ =~= seq![':']);
    find_at(&chars_of(t), &c).is_some()
}

/// The authorization header value for a token.
pub fn auth_header(token: &str) -> (r: String)
    ensures
        r@ == auth_header_text(token),
{
    let mut out: Vec<char> = Vec::new();
    if holds_colon(token) {
        append_str(&mut out, "Basic ");
        let enc = base64_encode(token.as_bytes());
        append_str(&mut out, enc.as_str());
    } else {
        append_str(&mut out, "Bearer ");
        append_str(&mut out, token);
    }
    string_of(&out)
}

/// The authorization header for Jira: as `auth_header_text`, except that a
/// token without a colon is paired with the account e-mail, where one is
/// configured, for Basic authentication.
pub open spec fn jira_auth_text(token: &str, email: Option<&str>) -> Seq<char> {
    if has_colon(token@) {
        "Basic "@ + base64_text(token.spec_bytes())
    } else {
        match email {
            Some(e) => "Basic "@ + base64_text(crate::text::utf8_of(e@ + ":"@ + token@)),
            None => "Bearer "@ + token@,
        }
    }
}

/// The authorization header value for Jira.
pub fn jira_auth_header(token: &str, email: Option<&str>) -> (r: String)
    ensures
        r@ == jira_auth_text(token, email),
{
    if holds_colon(token) {
        return auth_header(token);
    }
    match email {
        Some(e) => {
            let mut pair: Vec<char> = chars_of(e);
            append_str(&mut pair, ":");
            append_str(&mut pair, token);
            let joined = string_of(&pair);
            let mut out = chars_of("Basic ");
            let enc = base64_encode(joined.as_str().as_bytes());
            append_str(&mut out, enc.as_str());
            string_of(&out)
        },
        None => auth_header(token),
    }
}

} // verus!
