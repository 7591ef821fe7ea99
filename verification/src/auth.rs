//! Credentials and the decoding of the Authorization header: a basic-auth
//! header carries a base64 encoding of `username:password`, a bearer header
//! carries a token.

use vstd::prelude::*;
use vstd::string::StrSliceExecFns;
use vstd::string::StringExecFns;

verus! {

use Credentials::{Token, UsernamePassword};

#[derive(Debug, PartialEq)]
pub enum Credentials {
    UsernamePassword(String, String),
    Token(String),
}

/// What `base64::decode` yields for the given characters: the decoded bytes,
/// or nothing for text that is not valid base64.
pub uninterp spec fn base64_decode_of(s: Seq<char>) -> Option<Seq<u8>>;

/// What `base64::encode` yields for the given characters.
pub uninterp spec fn base64_encode_of(s: Seq<char>) -> Seq<char>;

/// What `String::from_utf8` yields for the given bytes: their decoding, or
/// nothing for bytes that are not valid UTF-8.
pub uninterp spec fn utf8_of(b: Seq<u8>) -> Option<Seq<char>>;

/// Relies on base64::decode: the standard alphabet with padding, and a
/// result that is a function of the input characters alone.
#[verifier::external_body]
fn base64_decode(s: &str) -> (r: Option<Vec<u8>>)
    ensures
        r is Some <==> base64_decode_of(s@) is Some,
        r matches Some(v) ==> base64_decode_of(s@) == Some(v@),
{
    match base64::decode(s) {
        Ok(v) => Some(v),
        Err(_) => None,
    }
}

/// Relies on base64::encode: the standard alphabet with padding, and a
/// result that is a function of the input characters alone.
#[verifier::external_body]
fn base64_encode(s: &str) -> (r: String)
    ensures
        r@ == base64_encode_of(s@),
{
    base64::encode(s)
}

/// Relies on String::from_utf8: it accepts exactly the byte sequences that
/// are valid UTF-8 and decodes them.
#[verifier::external_body]
fn utf8_to_string(bytes: Vec<u8>) -> (r: Option<String>)
    ensures
        r is Some <==> utf8_of(bytes@) is Some,
        r matches Some(s) ==> utf8_of(bytes@) == Some(s@),
{
    match String::from_utf8(bytes) {
        Ok(s) => Some(s),
        Err(_) => None,
    }
}

/// The sequence begins with the given prefix.
pub open spec fn starts_with(s: Seq<char>, prefix: Seq<char>) -> bool {
    prefix.len() <= s.len() && s.subrange(0, prefix.len() as int) == prefix
}

/// How many times the character occurs in the sequence.
pub open spec fn count_char(s: Seq<char>, c: char) -> nat
    decreases s.len(),
{
    if s.len() == 0 {
        0
    } else {
        count_char(s.drop_last(), c) + (if s.last() == c {
            1nat
        } else {
            0nat
        })
    }
}

/// The index of the first occurrence of the character, or -1 when there is
/// none.
pub open spec fn char_index(s: Seq<char>, c: char) -> int
    decreases s.len(),
{
    if s.len() == 0 {
        -1
    } else if s[0] == c {
        0
    } else {
        let r = char_index(s.drop_first(), c);
        if r == -1 {
            -1
        } else {
            r + 1
        }
    }
}

/// `char_index` returns -1 exactly when the character does not occur, and
/// otherwise its first index.
proof fn lemma_char_index(s: Seq<char>, c: char)
    ensures
        char_index(s, c) == -1 ==> forall|k: int| 0 <= k < s.len() ==> s[k] != c,
        char_index(s, c) != -1 ==> 0 <= char_index(s, c) < s.len() && s[char_index(s, c)] == c
            && forall|k: int| 0 <= k < char_index(s, c) ==> s[k] != c,
    decreases s.len(),
{
    if s.len() == 0 {
    } else if s[0] == c {
    } else {
        lemma_char_index(s.drop_first(), c);
        let r = char_index(s.drop_first(), c);
        if r == -1 {
            assert forall|k: int| 0 <= k < s.len() implies s[k] != c by {
                if k > 0 {
                    assert(s.drop_first()[k - 1] == s[k]);
                }
            }
        } else {
            assert(s.drop_first()[r] == s[r + 1]);
            assert forall|k: int| 0 <= k < r + 1 implies s[k] != c by {
                if k > 0 {
                    assert(s.drop_first()[k - 1] == s[k]);
                }
            }
        }
    }
}

/// The username and password a decoded basic-auth payload splits into: the
/// text before and after the colon, provided the payload holds exactly one.
pub open spec fn spec_split_credentials(d: Seq<char>) -> Option<(Seq<char>, Seq<char>)> {
    if count_char(d, ':') == 1 {
        let i = char_index(d, ':');
        Some((d.subrange(0, i), d.subrange(i + 1, d.len() as int)))
    } else {
        None
    }
}

/// The credentials a basic-auth payload decodes to: base64, then UTF-8, then
/// the single-colon split; any failing step rejects the header.
pub open spec fn spec_decode_basic(encoded: Seq<char>) -> Option<(Seq<char>, Seq<char>)> {
    match base64_decode_of(encoded) {
        Some(bytes) => match utf8_of(bytes) {
            Some(d) => spec_split_credentials(d),
            None => None,
        },
        None => None,
    }
}

fn str_starts_with(s: &str, prefix: &str) -> (r: bool)
    ensures
        r == starts_with(s@, prefix@),
{
    let pn = prefix.unicode_len();
    let sn = s.unicode_len();
    if pn > sn {
        return false;
    }
    let mut i: usize = 0;
    while i < pn
        invariant
            i <= pn,
            pn == prefix@.len(),
            sn == s@.len(),
            pn <= sn,
            forall|k: int| 0 <= k < i ==> s@[k] == prefix@[k],
        decreases pn - i,
    {
        if s.get_char(i) != prefix.get_char(i) {
            proof {
                assert(s@.subrange(0, pn as int)[i as int] == s@[i as int]);
            }
            return false;
        }
        i = i + 1;
    }
    proof {
        assert(s@.subrange(0, pn as int) =~= prefix@);
    }
    true
}

/// Splits a decoded basic-auth payload at its single colon; see
/// [`spec_split_credentials`].
fn split_credentials(d: &str) -> (r: Option<Credentials>)
    ensures
        match spec_split_credentials(d@) {
            Some(parts) => r matches Some(c) && c matches Credentials::UsernamePassword(u, p)
                && u@ == parts.0 && p@ == parts.1,
            None => r is None,
        },
{
    let n = d.unicode_len();
    let mut i: usize = 0;
    let mut colons: usize = 0;
    let mut first: usize = 0;
    assert(d@.subrange(0, 0) =~= Seq::<char>::empty());
    while i < n
        invariant
            i <= n,
            n == d@.len(),
            colons <= i,
            colons == count_char(d@.subrange(0, i as int), ':'),
            colons > 0 ==> first < i && d@[first as int] == ':' && forall|k: int|
                0 <= k < first ==> d@[k] != ':',
            colons == 0 ==> forall|k: int| 0 <= k < i ==> d@[k] != ':',
        decreases n - i,
    {
        proof {
            assert(d@.subrange(0, i as int + 1).drop_last() =~= d@.subrange(0, i as int));
            assert(d@.subrange(0, i as int + 1).last() == d@[i as int]);
        }
        if d.get_char(i) == ':' {
            if colons == 0 {
                first = i;
            }
            colons = colons + 1;
        }
        i = i + 1;
    }
    assert(d@.subrange(0, n as int) =~= d@);
    if colons == 1 {
        proof {
            lemma_char_index(d@, ':');
            assert(char_index(d@, ':') == first as int);
        }
        let username = d.substring_char(0, first).to_owned();
        let password = d.substring_char(first + 1, n).to_owned();
        Some(UsernamePassword(username, password))
    } else {
        None
    }
}

impl Credentials {
    /// The username and password of a basic-auth login: a token logs in as
    /// the username, with the fixed password `api_token`.
    pub fn into_basic(self) -> (r: (String, String))
        ensures
            match self {
                Credentials::UsernamePassword(u, p) => r.0 == u && r.1 == p,
                Credentials::Token(t) => r.0 == t && r.1@ == "api_token"@,
            },
    {
        match self {
            UsernamePassword(username, password) => (username, password),
            Token(token) => (token, "api_token".to_owned()),
        }
    }

    /// Decodes a basic-auth payload; see [`spec_decode_basic`].
    fn decode_username_and_password(encoded_data: &str) -> (r: Option<Credentials>)
        ensures
            match spec_decode_basic(encoded_data@) {
                Some(parts) => r matches Some(c) && c matches Credentials::UsernamePassword(u, p)
                    && u@ == parts.0 && p@ == parts.1,
                None => r is None,
            },
    {
        let bytes = match base64_decode(encoded_data) {
            Some(b) => b,
            None => {
                return None;
            },
        };
        let decoded = match utf8_to_string(bytes) {
            Some(s) => s,
            None => {
                return None;
            },
        };
        split_credentials(decoded.as_str())
    }

    /// Decodes an Authorization header: a `Basic ` header through base64 and
    /// the single-colon split, a `Bearer ` header as a bare token, anything
    /// else is rejected.
    pub fn decode(auth_header: &str) -> (r: Option<Credentials>)
        ensures
            ({
                let h = auth_header@;
                &&& starts_with(h, "Basic "@) ==> (match spec_decode_basic(h.skip(6)) {
                    Some(parts) => r matches Some(c) && c matches Credentials::UsernamePassword(
                        u,
                        p,
                    ) && u@ == parts.0 && p@ == parts.1,
                    None => r is None,
                })
                &&& !starts_with(h, "Basic "@) && starts_with(h, "Bearer "@) ==> (r matches Some(
                    c,
                ) && c matches Credentials::Token(t) && t@ == h.skip(7))
                &&& !starts_with(h, "Basic "@) && !starts_with(h, "Bearer "@) ==> r is None
            }),
    {
        proof {
            reveal_strlit("Basic ");
            reveal_strlit("Bearer ");
        }
        if str_starts_with(auth_header, "Basic ") {
            let n = auth_header.unicode_len();
            let encoded_data = auth_header.substring_char(6, n);
            assert(encoded_data@ =~= auth_header@.skip(6));
            return Credentials::decode_username_and_password(encoded_data);
        }
        if str_starts_with(auth_header, "Bearer ") {
            let n = auth_header.unicode_len();
            let token = auth_header.substring_char(7, n);
            assert(token@ =~= auth_header@.skip(7));
            return Some(Token(token.to_owned()));
        }
        None
    }
}

/// The Authorization header value that logs the given pair in: the base64
/// encoding of `username:password` under the `Basic ` scheme.
pub fn basic_auth_header(username: &str, password: &str) -> (r: String)
    ensures
        r@ == "Basic "@ + base64_encode_of(username@ + ":"@ + password@),
{
    let mut joined = username.to_owned();
    joined.append(":");
    joined.append(password);
    let encoded = base64_encode(joined.as_str());
    let mut out = "Basic ".to_owned();
    out.append(encoded.as_str());
    out
}

} // verus!
