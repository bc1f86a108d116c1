//! Where one session's credentials come from.

use vstd::prelude::*;
use vstd::string::*;

use crate::digest::{content_hash, hash_text};
use crate::text::{blank, copy_text, is_blank, same};

verus! {

/// The environment variable that carries a headless access token.
pub const TOKEN_VAR: &'static str = "SEMCTX_TOKEN";

/// A credential value that must not reach a log, an error message, or any
/// other output. [`Secret::expose`] is the only way to read it.
pub struct Secret(String);

impl View for Secret {
    type V = Seq<char>;

    closed spec fn view(&self) -> Seq<char> {
        self.0@
    }
}

/// What every secret shows of itself.
pub open spec fn redacted_secret() -> Seq<char> {
    "Secret(redacted)"@
}

impl Secret {
    pub fn new(value: String) -> (secret: Secret)
        ensures
            secret@ == value@,
    {
        Secret(value)
    }

    /// The plain credential. Call this where the value is put on the wire,
    /// never to build a message.
    pub fn expose(&self) -> (value: &str)
        ensures
            value@ == self@,
    {
        self.0.as_str()
    }

    /// What a log line may show: the same for every secret.
    pub fn redacted(&self) -> (shown: String)
        ensures
            shown@ == redacted_secret(),
    {
        copy_text("Secret(redacted)")
    }
}

/// How one session authorizes its requests.
pub enum CredentialSource {
    /// An access token supplied with the invocation.
    Invocation(Secret),
    /// The login held in the credential store.
    Stored,
}

/// Which sessions may share work, without the credential itself.
pub enum CredentialScope {
    /// The digest of an invocation token.
    Invocation(String),
    Stored,
}

/// A scope as the digest of its token, where there is one.
pub open spec fn scope_view(scope: CredentialScope) -> Option<Seq<char>> {
    match scope {
        CredentialScope::Invocation(digest) => Some(digest@),
        CredentialScope::Stored => None,
    }
}

/// The token of a source, where there is one.
pub open spec fn source_token(source: CredentialSource) -> Option<Seq<char>> {
    match source {
        CredentialSource::Invocation(secret) => Some(secret@),
        CredentialSource::Stored => None,
    }
}

/// The token that a value supplies: none where it is absent or blank.
pub open spec fn supplied_token(value: Option<Seq<char>>) -> Option<Seq<char>> {
    match value {
        Some(token) if !is_blank(token) => Some(token),
        _ => None,
    }
}

impl CredentialSource {
    /// The source that a token value names: a value that is absent, empty or
    /// blank means the stored login.
    pub fn from_token(value: Option<&str>) -> (source: CredentialSource)
        ensures
            source_token(source) == supplied_token(
                match value {
                    Some(token) => Some(token@),
                    None => None,
                },
            ),
    {
        match value {
            Some(token) => {
                if blank(token) {
                    CredentialSource::Stored
                } else {
                    CredentialSource::Invocation(Secret::new(copy_text(token)))
                }
            },
            None => CredentialSource::Stored,
        }
    }

    /// The scope of this source: a digest stands for the token.
    pub fn scope(&self) -> (scope: CredentialScope)
        ensures
            scope_view(scope) == match source_token(*self) {
                Some(token) => Some(content_hash(vstd::utf8::encode_utf8(token))),
                None => None,
            },
    {
        match self {
            CredentialSource::Invocation(secret) => CredentialScope::Invocation(
                hash_text(secret.expose().as_bytes()),
            ),
            CredentialSource::Stored => CredentialScope::Stored,
        }
    }

    /// What a log line may show of this source.
    pub fn redacted(&self) -> (shown: String)
        ensures
            shown@ == match source_token(*self) {
                Some(_) => "Invocation("@ + redacted_secret() + ")"@,
                None => "Stored"@,
            },
    {
        match self {
            CredentialSource::Invocation(secret) => {
                let mut shown = copy_text("Invocation(");
                shown.push_str(secret.redacted().as_str());
                shown.push_str(")");
                shown
            },
            CredentialSource::Stored => copy_text("Stored"),
        }
    }
}

impl CredentialScope {
    pub fn same(&self, other: &CredentialScope) -> (equal: bool)
        ensures
            equal == (scope_view(*self) == scope_view(*other)),
    {
        match (self, other) {
            (CredentialScope::Invocation(a), CredentialScope::Invocation(b)) => same(
                a.as_str(),
                b.as_str(),
            ),
            (CredentialScope::Stored, CredentialScope::Stored) => true,
            _ => false,
        }
    }

    pub fn copy(&self) -> (copy: CredentialScope)
        ensures
            scope_view(copy) == scope_view(*self),
    {
        match self {
            CredentialScope::Invocation(digest) => CredentialScope::Invocation(
                copy_text(digest.as_str()),
            ),
            CredentialScope::Stored => CredentialScope::Stored,
        }
    }
}

/// A token that is given is used as it is, unless it is white space, and then the
/// stored login is. A token is known elsewhere by the digest of its text, and is never
/// shown.
pub proof fn law_tokens_are_used_and_hidden(
    value: Option<&str>,
    source: CredentialSource,
    scope: CredentialScope,
    shown: String,
)
    requires
        call_ensures(CredentialSource::from_token, (value,), source),
        call_ensures(CredentialSource::scope, (&source,), scope),
        call_ensures(CredentialSource::redacted, (&source,), shown),
    ensures
        ({
            let given = value is Some && exists|i: int|
                0 <= i < value->0@.len() && !crate::text::is_white_space(#[trigger] value->0@[i]);
            &&& given ==> (source matches CredentialSource::Invocation(secret) && secret@
                == value->0@)
            &&& given ==> (scope matches CredentialScope::Invocation(digest) && digest@
                == content_hash(vstd::utf8::encode_utf8(value->0@)))
            &&& given ==> shown@ == "Invocation("@ + "Secret(redacted)"@ + ")"@
            &&& !given ==> source is Stored && scope is Stored && shown@ == "Stored"@
        }),
{
}

} // verus!
