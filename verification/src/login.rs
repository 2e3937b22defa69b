//! Names and addresses of accounts.

use crate::text::{chars_of, push_str, replace_char, replaced, string_of};
use vstd::prelude::*;

verus! {

/// What is kept of a session beside its secrets.
#[derive(Clone, Debug)]
pub struct SessionMetaFile {
    pub user_id: String,
    pub device_id: String,
    pub homeserver: String,
}

/// The name of the directory of an account: its id with `_` for each `:`.
pub fn account_id_to_dirname(user_id: &str) -> (dirname: String)
    ensures
        dirname@ == replaced(user_id@, ':', '_'),
{
    let chars = chars_of(user_id);
    let out = replace_char(&chars, ':', '_');
    string_of(&out)
}

/// The account id that a directory name stands for: the name with `:` for
/// each `_`.
pub fn dirname_to_account_id(dirname: &str) -> (user_id: String)
    ensures
        user_id@ == replaced(dirname@, '_', ':'),
{
    let chars = chars_of(dirname);
    let out = replace_char(&chars, '_', ':');
    string_of(&out)
}

/// The place of the first `c` in `s`, or the length of `s` where there is
/// none.
pub open spec fn first_of(s: Seq<char>, c: char) -> int
    decreases s.len(),
{
    if s.len() == 0 || s[0] == c {
        0
    } else {
        1 + first_of(s.drop_first(), c)
    }
}

/// The server that the input names: for a full user id, `@name:server`,
/// what follows the first colon; else the input itself.
pub open spec fn server_of(input: Seq<char>) -> Seq<char> {
    if input.len() > 0 && input[0] == '@' && first_of(input, ':') < input.len() {
        input.skip(first_of(input, ':') + 1)
    } else {
        input
    }
}

/// The server that the trimmed input names.
pub fn candidate_from_input(server_trim: &str) -> (server: String)
    ensures
        server@ == server_of(server_trim@),
{
    let chars = chars_of(server_trim);
    let n = chars.len();
    if n == 0 || chars[0] != '@' {
        return string_of(&chars);
    }
    let mut i: usize = 0;
    assert(chars@.skip(0) =~= chars@);
    while i < n && chars[i] != ':'
        invariant
            i <= n,
            n == chars@.len(),
            first_of(chars@, ':') == i + first_of(chars@.skip(i as int), ':'),
        decreases n - i,
    {
        assert(chars@.skip(i as int).drop_first() =~= chars@.skip(i + 1));
        i = i + 1;
    }
    if i == n {
        return string_of(&chars);
    }
    let mut out: Vec<char> = Vec::new();
    let mut j: usize = i + 1;
    while j < n
        invariant
            i + 1 <= j <= n,
            n == chars@.len(),
            out@ == chars@.subrange(i + 1, j as int),
        decreases n - j,
    {
        out.push(chars[j]);
        j = j + 1;
        assert(out@ =~= chars@.subrange(i + 1, j as int));
    }
    assert(chars@.subrange(i + 1, n as int) =~= chars@.skip(i + 1));
    string_of(&out)
}

/// The serialization of the absolute URL that `text` parses as; none where
/// it parses as none.
pub uninterp spec fn url_text(text: Seq<char>) -> Option<Seq<char>>;

#[verifier::external_type_specification]
#[verifier::external_body]
pub struct ExParseError(url::ParseError);

/// Parses an absolute URL. Wraps `url::Url::parse`, which gives the URL
/// or says why the text is none, and `Url::as_str`, the serialization of
/// the URL. The contract gives the serialization its name and says no more
/// of it.
#[verifier::external_body]
fn parse_url(text: &str) -> (parsed: Result<String, url::ParseError>)
    ensures
        match parsed {
            Ok(url) => url_text(text@) == Some(url@),
            Err(_) => url_text(text@) is None,
        },
{
    match url::Url::parse(text) {
        Ok(url) => Ok(url.as_str().to_owned()),
        Err(error) => Err(error),
    }
}

/// Why an input names no homeserver.
#[derive(Clone, Copy, Debug, PartialEq, Eq, Structural)]
pub enum ServerError {
    /// The input is no URL, with `https://` before it or without.
    NotAUrl,
}

/// The address of the homeserver for `candidate`: the candidate itself
/// where it is a URL as it stands, else what it parses as behind
/// `https://`. `parsed` says whether the candidate is a URL, `with_scheme`
/// is the URL behind `https://`.
pub open spec fn homeserver_for(
    candidate: Seq<char>,
    parsed: bool,
    with_scheme: Option<Seq<char>>,
) -> Result<Seq<char>, ServerError> {
    if parsed {
        Ok(candidate)
    } else {
        match with_scheme {
            Some(url) => Ok(url),
            None => Err(ServerError::NotAUrl),
        }
    }
}

/// The address as a value of specifications.
pub open spec fn address_of(address: Result<String, ServerError>) -> Result<
    Seq<char>,
    ServerError,
> {
    match address {
        Ok(url) => Ok(url@),
        Err(e) => Err(e),
    }
}

/// The address of the homeserver for `candidate`, given whether the
/// candidate is a URL and the URL that it is behind `https://`.
pub fn homeserver_url_given(candidate: &str, parsed: bool, with_scheme: Option<String>) -> (address:
    Result<String, ServerError>)
    ensures
        address_of(address) == homeserver_for(
            candidate@,
            parsed,
            match with_scheme {
                Some(url) => Some(url@),
                None => None,
            },
        ),
{
    if parsed {
        Ok(candidate.to_owned())
    } else {
        match with_scheme {
            Some(url) => Ok(url),
            None => Err(ServerError::NotAUrl),
        }
    }
}

/// The address of the homeserver for `candidate`.
pub fn homeserver_url_from_candidate(candidate: &str) -> (address: Result<String, ServerError>)
    ensures
        address_of(address) == homeserver_for(
            candidate@,
            url_text(candidate@) is Some,
            url_text("https://"@ + candidate@),
        ),
{
    let parsed = parse_url(candidate).is_ok();
    let mut longer: Vec<char> = Vec::new();
    push_str(&mut longer, "https://");
    push_str(&mut longer, candidate);
    assert(longer@ =~= "https://"@ + candidate@);
    let with_scheme = match parse_url(string_of(&longer).as_str()) {
        Ok(url) => Some(url),
        Err(_) => None,
    };
    homeserver_url_given(candidate, parsed, with_scheme)
}

} // verus!
