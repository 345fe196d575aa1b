//! Authentication towards the upstream: which credentials are used, and when they are renewed.

use vstd::prelude::*;
use vstd::string::*;

use crate::config::EnvText;
use crate::decimal::to_decimal;
use crate::decimal;
use crate::error::concatenated;
use crate::parts::{is_white_space, to_lower_case, trim};
use crate::parts;
use crate::sidecar::has_permissions;
use crate::sidecar;
use crate::text::{chars_of, same_text, text_between};
use crate::text;

verus! {

/// The largest bearer token file in bytes: 16 KiB.
pub const MAX_BEARER_TOKEN_FILE_BYTES: u64 = 16_384;

/// How long a token lasts where its issuer does not say, in seconds.
pub const DEFAULT_TOKEN_LIFETIME_SECS: u64 = 3_600;

/// A failure of authentication.
#[derive(Debug)]
pub struct AuthError {
    pub message: String,
}

/// The failure with the text `message`.
pub fn auth_error(message: &str) -> (error: AuthError)
    ensures
        error.message@ == message@,
{
    AuthError { message: message.to_owned() }
}

/// Credentials: a token, the token that renews it, and the time at which it expires, in
/// milliseconds.
#[derive(Debug, Clone, PartialEq, Eq)]
pub struct StoredAuth {
    pub access: String,
    pub refresh: String,
    pub expires: u64,
    pub account_id: Option<String>,
}

/// What credentials hold.
pub struct AuthView {
    pub access: Seq<char>,
    pub refresh: Seq<char>,
    pub expires: u64,
    pub account_id: Option<Seq<char>>,
}

impl View for StoredAuth {
    type V = AuthView;

    open spec fn view(&self) -> AuthView {
        AuthView {
            access: self.access@,
            refresh: self.refresh@,
            expires: self.expires,
            account_id: text::optional_text(self.account_id),
        }
    }
}

/// Where credentials come from.
#[derive(Debug, Clone, Copy, PartialEq, Eq, Structural)]
pub enum CodexAuthMode {
    OAuth,
    BearerFile,
}

/// The mode that the environment names, or why it is refused.
pub open spec fn mode_in(raw: Option<EnvText>) -> Result<CodexAuthMode, Seq<char>> {
    match raw {
        None => Ok(CodexAuthMode::OAuth),
        Some(EnvText::NotUnicode) => Err("CCP_CODEX_AUTH_MODE must be valid UTF-8"@),
        Some(EnvText::Text(text)) => {
            let mode = parts::lower_case(parts::trimmed(text@));
            if mode.len() == 0 || mode == "oauth"@ {
                Ok(CodexAuthMode::OAuth)
            } else if mode == "bearer_file"@ {
                Ok(CodexAuthMode::BearerFile)
            } else {
                Err("CCP_CODEX_AUTH_MODE must be oauth or bearer_file"@)
            }
        },
    }
}

/// The mode that the environment names.
pub fn codex_auth_mode(raw: &Option<EnvText>) -> (result: Result<CodexAuthMode, AuthError>)
    ensures
        match result {
            Ok(mode) => mode_in(*raw) == Ok::<CodexAuthMode, Seq<char>>(mode),
            Err(error) => mode_in(*raw) == Err::<CodexAuthMode, Seq<char>>(error.message@),
        },
{
    match raw {
        None => Ok(CodexAuthMode::OAuth),
        Some(EnvText::NotUnicode) => Err(auth_error("CCP_CODEX_AUTH_MODE must be valid UTF-8")),
        Some(EnvText::Text(text)) => {
            let mode = to_lower_case(trim(text.as_str()).as_str());
            if mode.as_str().is_empty() || same_text(mode.as_str(), "oauth") {
                Ok(CodexAuthMode::OAuth)
            } else if same_text(mode.as_str(), "bearer_file") {
                Ok(CodexAuthMode::BearerFile)
            } else {
                Err(auth_error("CCP_CODEX_AUTH_MODE must be oauth or bearer_file"))
            }
        },
    }
}

/// The path of the bearer token file that the environment names, or why it is refused.
pub open spec fn token_path_in(raw: Option<EnvText>) -> Result<Seq<char>, Seq<char>> {
    match raw {
        None => Err("CCP_CODEX_BEARER_TOKEN_FILE is required in bearer_file mode"@),
        Some(EnvText::NotUnicode) => Err("CCP_CODEX_BEARER_TOKEN_FILE must be valid UTF-8"@),
        Some(EnvText::Text(path)) => if parts::trimmed(path@).len() == 0 {
            Err("CCP_CODEX_BEARER_TOKEN_FILE must not be empty"@)
        } else {
            Ok(path@)
        },
    }
}

/// The path of the bearer token file that the environment names.
pub fn bearer_token_path(raw: Option<EnvText>) -> (result: Result<String, AuthError>)
    ensures
        match result {
            Ok(path) => token_path_in(raw) == Ok::<Seq<char>, Seq<char>>(path@),
            Err(error) => token_path_in(raw) == Err::<Seq<char>, Seq<char>>(error.message@),
        },
{
    match raw {
        None => Err(auth_error("CCP_CODEX_BEARER_TOKEN_FILE is required in bearer_file mode")),
        Some(EnvText::NotUnicode) => Err(
            auth_error("CCP_CODEX_BEARER_TOKEN_FILE must be valid UTF-8"),
        ),
        Some(EnvText::Text(path)) => if trim(path.as_str()).as_str().is_empty() {
            Err(auth_error("CCP_CODEX_BEARER_TOKEN_FILE must not be empty"))
        } else {
            Ok(path)
        },
    }
}

/// What is known of a bearer token file without reading it.
#[derive(Debug, Clone, Copy)]
pub struct TokenFileFacts {
    pub is_symlink: bool,
    pub is_file: bool,
    pub length: u64,
    pub mode: Option<u32>,
}

/// Why a bearer token file is refused.
pub open spec fn token_file_fault(file: TokenFileFacts) -> Option<Seq<char>> {
    if file.is_symlink {
        Some("Bearer token file must not be a symlink"@)
    } else if !file.is_file {
        Some("Bearer token path must be a regular file"@)
    } else if file.length == 0 || file.length > MAX_BEARER_TOKEN_FILE_BYTES {
        Some("Bearer token file has an invalid size"@)
    } else if !sidecar::permits(file.mode, 0o600) {
        Some("Bearer token file permissions must be 0600"@)
    } else {
        None
    }
}

/// Checks a bearer token file before it is read.
pub fn check_token_file(file: &TokenFileFacts) -> (result: Result<(), AuthError>)
    ensures
        match result {
            Ok(_) => token_file_fault(*file) is None,
            Err(error) => token_file_fault(*file) == Some(error.message@),
        },
{
    if file.is_symlink {
        Err(auth_error("Bearer token file must not be a symlink"))
    } else if !file.is_file {
        Err(auth_error("Bearer token path must be a regular file"))
    } else if file.length == 0 || file.length > MAX_BEARER_TOKEN_FILE_BYTES {
        Err(auth_error("Bearer token file has an invalid size"))
    } else if !has_permissions(file.mode, 0o600) {
        Err(auth_error("Bearer token file permissions must be 0600"))
    } else {
        Ok(())
    }
}

/// A text without the line ends behind it.
pub open spec fn without_line_ends(text: Seq<char>) -> Seq<char>
    decreases text.len(),
{
    if text.len() > 0 && (text.last() == '\r' || text.last() == '\n') {
        without_line_ends(text.drop_last())
    } else {
        text
    }
}

/// Whether a text holds white space.
pub open spec fn has_space(text: Seq<char>) -> bool {
    exists|i: int| 0 <= i < text.len() && parts::is_space(#[trigger] text[i])
}

/// The credentials in a bearer token file, or why its contents are refused. A bearer token does
/// not expire and cannot be renewed.
pub open spec fn bearer_auth(contents: Seq<char>) -> Result<AuthView, Seq<char>> {
    let token = without_line_ends(contents);
    if token.len() == 0 {
        Err("Bearer token file is empty"@)
    } else if has_space(token) {
        Err("Bearer token file must contain exactly one token"@)
    } else {
        Ok(
            AuthView {
                access: token,
                refresh: Seq::empty(),
                expires: u64::MAX,
                account_id: None,
            },
        )
    }
}

/// The credentials in a bearer token file.
pub fn read_bearer_token(contents: &str) -> (result: Result<StoredAuth, AuthError>)
    ensures
        match result {
            Ok(auth) => bearer_auth(contents@) == Ok::<AuthView, Seq<char>>(auth@),
            Err(error) => bearer_auth(contents@) == Err::<AuthView, Seq<char>>(error.message@),
        },
{
    let chars = chars_of(contents);
    let mut end: usize = chars.len();
    assert(contents@.take(end as int) =~= contents@);
    while end > 0 && (chars[end - 1] == '\r' || chars[end - 1] == '\n')
        invariant
            chars@ == contents@,
            end <= chars@.len(),
            without_line_ends(contents@) == without_line_ends(contents@.take(end as int)),
        decreases end,
    {
        assert(contents@.take(end as int).drop_last() =~= contents@.take(end - 1));
        end = end - 1;
    }
    let ghost token = contents@.take(end as int);
    if end == 0 {
        return Err(auth_error("Bearer token file is empty"));
    }
    let mut i: usize = 0;
    while i < end
        invariant
            chars@ == contents@,
            i <= end <= chars@.len(),
            token == contents@.take(end as int),
            token == without_line_ends(contents@),
            end > 0,
            forall|j: int| 0 <= j < i ==> !parts::is_space(#[trigger] token[j]),
        decreases end - i,
    {
        if is_white_space(chars[i]) {
            assert(parts::is_space(token[i as int]));
            return Err(auth_error("Bearer token file must contain exactly one token"));
        }
        i = i + 1;
    }
    let access = text_between(&chars, 0, end);
    assert(access@ =~= token);
    let refresh = String::new();
    assert(refresh@ =~= Seq::empty());
    Ok(StoredAuth { access, refresh, expires: u64::MAX, account_id: None })
}

/// Whether credentials last longer than the margin from the time `now_ms` on.
pub open spec fn is_fresh(auth: AuthView, now_ms: u64, margin_ms: u64) -> bool {
    auth.expires > now_ms + margin_ms
}

/// Whether credentials last longer than the margin from the time `now_ms` on.
fn lasts(auth: &StoredAuth, now_ms: u64, margin_ms: u64) -> (result: bool)
    ensures
        result == is_fresh(auth@, now_ms, margin_ms),
{
    auth.expires > now_ms && auth.expires - now_ms > margin_ms
}

/// What is to be done about credentials.
#[derive(Debug)]
pub enum AuthDecision {
    /// They are used as they are.
    Use(StoredAuth),
    /// They are to be renewed; those given are the ones to renew, where they are known already.
    Refresh(Option<StoredAuth>),
}

/// What a decision on credentials comes to.
pub enum Choice {
    /// The stored credentials are used as they are.
    Use,
    /// They are renewed.
    Renew,
    /// The request fails with this text.
    Fail(Seq<char>),
}

/// What a decision on the credentials `stored` came to.
pub open spec fn choice_in(
    result: Result<AuthDecision, AuthError>,
    stored: Option<StoredAuth>,
) -> Option<Choice> {
    match result {
        Ok(AuthDecision::Use(auth)) => if stored == Some(auth) {
            Some(Choice::Use)
        } else {
            None
        },
        Ok(AuthDecision::Refresh(auth)) => if auth is None || auth == stored {
            Some(Choice::Renew)
        } else {
            None
        },
        Err(error) => Some(Choice::Fail(error.message@)),
    }
}

/// What becomes of the stored credentials of a request.
pub open spec fn choice(
    stored: Option<AuthView>,
    now_ms: u64,
    margin_ms: u64,
    login_command: Seq<char>,
) -> Choice {
    match stored {
        None => Choice::Fail("Not authenticated. Run: "@ + login_command),
        Some(auth) => if is_fresh(auth, now_ms, margin_ms) {
            Choice::Use
        } else {
            Choice::Renew
        },
    }
}

/// What stored credentials hold, where there are any.
pub open spec fn optional_auth(stored: Option<StoredAuth>) -> Option<AuthView> {
    match stored {
        Some(auth) => Some(auth@),
        None => None,
    }
}

/// Decides on the credentials that are stored at the time `now_ms`, for a request. Where there are
/// none, the failure names the command that gets some.
pub fn choose_auth(
    stored: Option<StoredAuth>,
    now_ms: u64,
    margin_ms: u64,
    login_command: &str,
) -> (result: Result<AuthDecision, AuthError>)
    ensures
        match stored {
            None => result matches Err(error) && error.message@ == "Not authenticated. Run: "@
                + login_command@,
            Some(auth) => result == Ok::<AuthDecision, AuthError>(
                if is_fresh(auth@, now_ms, margin_ms) {
                    AuthDecision::Use(auth)
                } else {
                    AuthDecision::Refresh(None)
                },
            ),
        },
        choice_in(result, stored) == Some(
            choice(optional_auth(stored), now_ms, margin_ms, login_command@),
        ),
{
    match stored {
        None => Err(
            AuthError { message: concatenated("Not authenticated. Run: ", login_command) },
        ),
        Some(auth) => if lasts(&auth, now_ms, margin_ms) {
            Ok(AuthDecision::Use(auth))
        } else {
            Ok(AuthDecision::Refresh(None))
        },
    }
}

/// Whether a bearer token in the file is used after the token `rejected` was rejected.
pub open spec fn is_other_token(current: Seq<char>, rejected: Seq<char>) -> bool {
    current != rejected
}

/// Decides on the bearer token in the file after the token `rejected` was rejected.
pub fn choose_bearer_auth(current: StoredAuth, rejected: &str) -> (result: Result<
    StoredAuth,
    AuthError,
>)
    ensures
        if current.access@ != rejected@ {
            result == Ok::<StoredAuth, AuthError>(current)
        } else {
            result matches Err(error) && error.message@
                == "Configured bearer token was rejected; OAuth refresh is disabled"@
        },
        result is Ok <==> is_other_token(current.access@, rejected@),
{
    if !same_text(current.access.as_str(), rejected) {
        Ok(current)
    } else {
        Err(auth_error("Configured bearer token was rejected; OAuth refresh is disabled"))
    }
}

/// Whether credentials that are stored once the renewal lock is held need no renewal: they are
/// fresh, unless a renewal is forced, or they are others than those that were rejected.
pub open spec fn is_renewed(
    current: AuthView,
    force: bool,
    rejected: Option<Seq<char>>,
    now_ms: u64,
    margin_ms: u64,
) -> bool {
    ||| !force && is_fresh(current, now_ms, margin_ms)
    ||| rejected matches Some(access) && current.access != access
}

/// What becomes of the credentials that are stored once the renewal lock is held.
pub open spec fn choice_after_lock(
    stored: Option<AuthView>,
    force: bool,
    rejected: Option<Seq<char>>,
    now_ms: u64,
    margin_ms: u64,
) -> Choice {
    match stored {
        None => Choice::Fail("Not authenticated"@),
        Some(current) => if is_renewed(current, force, rejected, now_ms, margin_ms) {
            Choice::Use
        } else if current.refresh.len() == 0 {
            Choice::Fail("No refresh token stored; re-authenticate"@)
        } else {
            Choice::Renew
        },
    }
}

/// Decides on the credentials that are stored once the renewal lock is held.
pub fn choose_after_lock(
    stored: Option<StoredAuth>,
    force: bool,
    rejected_access: Option<&str>,
    now_ms: u64,
    margin_ms: u64,
) -> (result: Result<AuthDecision, AuthError>)
    ensures
        match stored {
            None => result matches Err(error) && error.message@ == "Not authenticated"@,
            Some(current) => if is_renewed(
                current@,
                force,
                crate::lanes::slice_text(rejected_access),
                now_ms,
                margin_ms,
            ) {
                result == Ok::<AuthDecision, AuthError>(AuthDecision::Use(current))
            } else if current.refresh@.len() == 0 {
                result matches Err(error) && error.message@
                    == "No refresh token stored; re-authenticate"@
            } else {
                result == Ok::<AuthDecision, AuthError>(AuthDecision::Refresh(Some(current)))
            },
        },
        choice_in(result, stored) == Some(
            choice_after_lock(
                optional_auth(stored),
                force,
                crate::lanes::slice_text(rejected_access),
                now_ms,
                margin_ms,
            ),
        ),
{
    let current = match stored {
        Some(current) => current,
        None => {
            return Err(auth_error("Not authenticated"));
        },
    };
    let others = match rejected_access {
        Some(access) => !same_text(current.access.as_str(), access),
        None => false,
    };
    if (!force && lasts(&current, now_ms, margin_ms)) || others {
        return Ok(AuthDecision::Use(current));
    }
    if current.refresh.as_str().is_empty() {
        return Err(auth_error("No refresh token stored; re-authenticate"));
    }
    Ok(AuthDecision::Refresh(Some(current)))
}

/// The fields of a renewal request.
pub open spec fn refresh_fields(client_id: Seq<char>, refresh: Seq<char>) -> Seq<
    (Seq<char>, Seq<char>),
> {
    seq![
        ("client_id"@, client_id),
        ("grant_type"@, "refresh_token"@),
        ("refresh_token"@, refresh),
    ]
}

/// The contents of a list of fields.
pub open spec fn field_texts(fields: Seq<(String, String)>) -> Seq<(Seq<char>, Seq<char>)> {
    Seq::new(fields.len(), |i: int| (fields[i].0@, fields[i].1@))
}

/// The fields of the request that renews `current`.
pub fn refresh_form(client_id: &str, current: &StoredAuth) -> (form: Vec<(String, String)>)
    ensures
        field_texts(form@) == refresh_fields(client_id@, current.refresh@),
{
    let mut form: Vec<(String, String)> = Vec::new();
    form.push(("client_id".to_owned(), client_id.to_owned()));
    form.push(("grant_type".to_owned(), "refresh_token".to_owned()));
    form.push(("refresh_token".to_owned(), current.refresh.clone()));
    assert(field_texts(form@) =~= refresh_fields(client_id@, current.refresh@));
    form
}

/// What the status of a renewal response means.
#[derive(Debug, Clone, Copy, PartialEq, Eq, Structural)]
pub enum RefreshReply {
    /// The token that renews was rejected.
    Rejected,
    /// The renewal failed.
    Failed,
    /// The response holds new tokens.
    Accepted,
}

/// What the status of a renewal response means.
pub open spec fn reply_to(status: u16) -> RefreshReply {
    if status == 401 || status == 403 {
        RefreshReply::Rejected
    } else if 200 <= status < 300 {
        RefreshReply::Accepted
    } else {
        RefreshReply::Failed
    }
}

/// What the status of a renewal response means.
pub fn classify_refresh_status(status: u16) -> (reply: RefreshReply)
    ensures
        reply == if status == 401 || status == 403 {
            RefreshReply::Rejected
        } else if 200 <= status < 300 {
            RefreshReply::Accepted
        } else {
            RefreshReply::Failed
        },
        reply == reply_to(status),
{
    if status == 401 || status == 403 {
        RefreshReply::Rejected
    } else if 200 <= status && status < 300 {
        RefreshReply::Accepted
    } else {
        RefreshReply::Failed
    }
}

/// The failure of a renewal with the status `status`.
pub fn refresh_failure(status: u16) -> (error: AuthError)
    ensures
        error.message@ == "Token refresh failed: "@ + decimal::decimal(status as nat),
        error.message@ == failure_text(status),
{
    AuthError {
        message: concatenated("Token refresh failed: ", to_decimal(status as u64).as_str()),
    }
}

/// Whether two credentials hold the same.
fn same_auth(a: &StoredAuth, b: &StoredAuth) -> (same: bool)
    ensures
        same == (a@ == b@),
{
    let same_account = match (&a.account_id, &b.account_id) {
        (Some(x), Some(y)) => same_text(x.as_str(), y.as_str()),
        (None, None) => true,
        _ => false,
    };
    same_text(a.access.as_str(), b.access.as_str()) && same_text(
        a.refresh.as_str(),
        b.refresh.as_str(),
    ) && a.expires == b.expires && same_account
}

/// Whether credentials that are stored by then are used after the renewal of `current` was
/// rejected.
pub open spec fn is_replaced(current: AuthView, latest: Option<AuthView>) -> bool {
    latest matches Some(latest) && latest != current
}

/// The credentials to use after the renewal of `current` was rejected: those that are stored by
/// then, where they are others. Where there are none, the stored credentials are to be removed.
pub fn auth_after_rejection(current: &StoredAuth, latest: Option<StoredAuth>) -> (auth: Option<
    StoredAuth,
>)
    ensures
        auth == match latest {
            Some(stored) => if stored@ != current@ {
                Some(stored)
            } else {
                None
            },
            None => None,
        },
        auth is Some <==> is_replaced(current@, optional_auth(latest)),
{
    match latest {
        Some(stored) => if same_auth(&stored, current) {
            None
        } else {
            Some(stored)
        },
        None => None,
    }
}

/// The tokens of a response, and the account that they name.
#[derive(Debug)]
pub struct IssuedTokens {
    pub access_token: String,
    pub refresh_token: String,
    pub expires_in: Option<u64>,
    pub account_id: Option<String>,
}

/// The lifetime of tokens in seconds.
pub open spec fn lifetime(tokens: IssuedTokens) -> u64 {
    match tokens.expires_in {
        Some(seconds) => seconds,
        None => DEFAULT_TOKEN_LIFETIME_SECS,
    }
}

/// The account that credentials belong to: that of the new tokens, or else the one before.
pub open spec fn account_of(tokens: IssuedTokens, previous: Option<AuthView>) -> Option<Seq<char>> {
    match (tokens.account_id, previous) {
        (Some(account), _) => Some(account@),
        (None, Some(previous)) => previous.account_id,
        (None, None) => None,
    }
}

/// The credentials that new tokens give at the time `now_ms`, in place of `previous`.
pub open spec fn renewed_auth(
    tokens: IssuedTokens,
    previous: Option<AuthView>,
    now_ms: u64,
) -> AuthView {
    AuthView {
        access: tokens.access_token@,
        refresh: tokens.refresh_token@,
        expires: (now_ms + lifetime(tokens) * 1000) as u64,
        account_id: account_of(tokens, previous),
    }
}

/// The credentials that new tokens give at the time `now_ms`, in place of `previous`.
pub fn auth_from_tokens(tokens: IssuedTokens, previous: Option<&StoredAuth>, now_ms: u64) -> (auth:
    StoredAuth)
    requires
        now_ms + lifetime(tokens) * 1000 <= u64::MAX,
    ensures
        auth@ == (AuthView {
            access: tokens.access_token@,
            refresh: tokens.refresh_token@,
            expires: (now_ms + lifetime(tokens) * 1000) as u64,
            account_id: account_of(
                tokens,
                match previous {
                    Some(previous) => Some(previous@),
                    None => None,
                },
            ),
        }),
        auth@ == renewed_auth(
            tokens,
            match previous {
                Some(previous) => Some(previous@),
                None => None,
            },
            now_ms,
        ),
{
    let seconds: u64 = match tokens.expires_in {
        Some(seconds) => seconds,
        None => DEFAULT_TOKEN_LIFETIME_SECS,
    };
    let account_id = match tokens.account_id {
        Some(account) => Some(account),
        None => match previous {
            Some(previous) => match &previous.account_id {
                Some(account) => Some(account.clone()),
                None => None,
            },
            None => None,
        },
    };
    StoredAuth {
        access: tokens.access_token,
        refresh: tokens.refresh_token,
        expires: now_ms + seconds * 1000,
        account_id,
    }
}

/// Of several requests that wait to renew one expired token, those that come after the first use
/// what it stored: new credentials that last need no renewal.
pub proof fn law_waiting_requests_reuse_the_renewal(
    renewed: AuthView,
    rejected: Seq<char>,
    now_ms: u64,
    margin_ms: u64,
)
    ensures
        is_fresh(renewed, now_ms, margin_ms) ==> is_renewed(
            renewed,
            false,
            None,
            now_ms,
            margin_ms,
        ),
        renewed.access != rejected ==> is_renewed(
            renewed,
            true,
            Some(rejected),
            now_ms,
            margin_ms,
        ),
        renewed.access == rejected ==> !is_renewed(
            renewed,
            true,
            Some(rejected),
            now_ms,
            margin_ms,
        ),
{
}

/// A bearer token holds no white space, never expires and is never renewed.
pub proof fn law_bearer_tokens_are_single_and_lasting(contents: Seq<char>)
    requires
        bearer_auth(contents) is Ok,
    ensures
        ({
            let auth = bearer_auth(contents)->Ok_0;
            &&& auth.access.len() > 0
            &&& !has_space(auth.access)
            &&& auth.refresh.len() == 0
            &&& auth.account_id is None
            &&& forall|now_ms: u64, margin_ms: u64|
                now_ms + margin_ms < u64::MAX ==> #[trigger] is_fresh(auth, now_ms, margin_ms)
        }),
{
}

/// Stored credentials are handed out to a request just where they outlast the margin, and are else
/// sent to renewal; only where there are none does the request fail.
pub proof fn law_expired_credentials_are_sent_to_renewal(
    auth: AuthView,
    now_ms: u64,
    margin_ms: u64,
    login_command: Seq<char>,
)
    ensures
        choice(Some(auth), now_ms, margin_ms, login_command) is Use <==> auth.expires > now_ms
            + margin_ms,
        choice(Some(auth), now_ms, margin_ms, login_command) is Renew <==> auth.expires <= now_ms
            + margin_ms,
        choice(None, now_ms, margin_ms, login_command) == Choice::Fail(
            "Not authenticated. Run: "@ + login_command,
        ),
{
}

/// Under the lock, without a token that was rejected and without force, credentials are handed out
/// only where they last: those that were sent to renewal and that nobody has replaced are renewed,
/// with the token that renews them, or the request fails where they have none. That holds from then
/// on at every later time.
pub proof fn law_credentials_sent_to_renewal_are_renewed(
    auth: AuthView,
    now_ms: u64,
    later_ms: u64,
    margin_ms: u64,
    login_command: Seq<char>,
)
    requires
        choice(Some(auth), now_ms, margin_ms, login_command) is Renew,
        now_ms <= later_ms,
    ensures
        auth.refresh.len() > 0 ==> choice_after_lock(
            Some(auth),
            false,
            None,
            later_ms,
            margin_ms,
        ) is Renew,
        auth.refresh.len() == 0 ==> choice_after_lock(
            Some(auth),
            false,
            None,
            later_ms,
            margin_ms,
        ) == Choice::Fail("No refresh token stored; re-authenticate"@),
{
}

/// Whatever credentials are handed out under the lock outlast the margin, or are others than those
/// that were rejected. Forced, only others are. Credentials that are neither are never handed out,
/// and credentials that are either never renewed.
pub proof fn law_credentials_used_under_the_lock(
    auth: AuthView,
    force: bool,
    rejected: Option<Seq<char>>,
    now_ms: u64,
    margin_ms: u64,
)
    ensures
        choice_after_lock(Some(auth), force, rejected, now_ms, margin_ms) is Use ==> (!force
            && auth.expires > now_ms + margin_ms) || (rejected is Some && rejected->0
            != auth.access),
        !force && auth.expires > now_ms + margin_ms ==> choice_after_lock(
            Some(auth),
            force,
            rejected,
            now_ms,
            margin_ms,
        ) is Use,
        rejected is Some && rejected->0 != auth.access ==> choice_after_lock(
            Some(auth),
            force,
            rejected,
            now_ms,
            margin_ms,
        ) is Use,
        choice_after_lock(Some(auth), force, rejected, now_ms, margin_ms) is Renew
            ==> auth.refresh.len() > 0,
        choice_after_lock(Some(auth), force, rejected, now_ms, margin_ms) is Fail ==> auth.refresh.len()
            == 0,
        choice_after_lock(None, force, rejected, now_ms, margin_ms) == Choice::Fail(
            "Not authenticated"@,
        ),
        is_renewed(auth, false, None, now_ms, margin_ms) ==> auth.expires > now_ms + margin_ms,
{
}

/// A token that was rejected is not used again, and any other token in the file is.
pub proof fn law_rejected_bearer_tokens_are_not_used_again(current: Seq<char>, rejected: Seq<char>)
    ensures
        is_other_token(current, rejected) <==> !(current == rejected),
        !is_other_token(rejected, rejected),
{
}

/// New tokens are accepted from a reply of success; a reply that the renewing token is not
/// authorised rejects it; any other is a failure.
pub proof fn law_replies_are_told_by_their_status(status: u16)
    ensures
        reply_to(status) is Accepted <==> 200 <= status <= 299,
        reply_to(status) is Rejected <==> status == 401 || status == 403,
        reply_to(status) is Failed <==> !(200 <= status <= 299) && status != 401 && status != 403,
{
}

/// After a rejection the stored credentials are used just where they differ from those that were
/// rejected, in the token, the renewing token, the time of expiry or the account.
pub proof fn law_replaced_credentials_differ(current: AuthView, latest: AuthView)
    ensures
        !is_replaced(current, None),
        is_replaced(current, Some(latest)) <==> latest.access != current.access || latest.refresh
            != current.refresh || latest.expires != current.expires || latest.account_id
            != current.account_id,
{
}

/// New credentials hold the new tokens and last from now for as long as their issuer says, an hour
/// where it does not; they keep the account where the new tokens name none. They are handed out as
/// long as they outlast the margin.
pub proof fn law_new_credentials_last_as_issued(
    tokens: IssuedTokens,
    previous: Option<AuthView>,
    now_ms: u64,
    margin_ms: u64,
    login_command: Seq<char>,
)
    requires
        now_ms + lifetime(tokens) * 1000 <= u64::MAX,
    ensures
        ({
            let auth = renewed_auth(tokens, previous, now_ms);
            let seconds: int = match tokens.expires_in {
                Some(seconds) => seconds as int,
                None => 3600,
            };
            &&& auth.access == tokens.access_token@
            &&& auth.refresh == tokens.refresh_token@
            &&& auth.expires == now_ms + seconds * 1000
            &&& tokens.account_id matches Some(account) ==> auth.account_id == Some(account@)
            &&& tokens.account_id is None && previous is Some ==> auth.account_id
                == previous->0.account_id
            &&& tokens.account_id is None && previous is None ==> auth.account_id is None
            &&& seconds * 1000 > margin_ms ==> choice(Some(auth), now_ms, margin_ms, login_command)
                is Use
        }),
{
}

/// A renewal asks with the identifier of the client, the kind of the grant and the renewing token of
/// the credentials, under these names.
pub proof fn law_renewal_sends_the_renewing_token(client_id: Seq<char>, refresh: Seq<char>)
    ensures
        refresh_fields(client_id, refresh).len() == 3,
        refresh_fields(client_id, refresh).contains(("client_id"@, client_id)),
        refresh_fields(client_id, refresh).contains(("grant_type"@, "refresh_token"@)),
        refresh_fields(client_id, refresh).contains(("refresh_token"@, refresh)),
{
    let fields = refresh_fields(client_id, refresh);
    assert(fields[0] == ("client_id"@, client_id));
    assert(fields[1] == ("grant_type"@, "refresh_token"@));
    assert(fields[2] == ("refresh_token"@, refresh));
}

/// The credentials in a bearer token file are its contents without line ends behind them, where
/// that is one token; line ends behind it do not matter, and white space inside it does.
pub proof fn law_bearer_token_is_the_file_without_line_ends(token: Seq<char>, ends: Seq<char>)
    requires
        forall|i: int| 0 <= i < ends.len() ==> (#[trigger] ends[i]) == '\r' || ends[i] == '\n',
        token.len() > 0 ==> token.last() != '\r' && token.last() != '\n',
    ensures
        token.len() == 0 ==> bearer_auth(token + ends) == Err::<AuthView, Seq<char>>(
            "Bearer token file is empty"@,
        ),
        token.len() > 0 && (exists|i: int|
            0 <= i < token.len() && parts::is_space(#[trigger] token[i])) ==> bearer_auth(
            token + ends,
        ) == Err::<AuthView, Seq<char>>("Bearer token file must contain exactly one token"@),
        token.len() > 0 && (forall|i: int|
            0 <= i < token.len() ==> !parts::is_space(#[trigger] token[i])) ==> bearer_auth(
            token + ends,
        ) is Ok && bearer_auth(token + ends)->Ok_0.access == token,
    decreases ends.len(),
{
    let contents = token + ends;
    if ends.len() == 0 {
        assert(contents =~= token);
        assert(without_line_ends(token) == token);
    } else {
        let fewer = ends.drop_last();
        assert forall|i: int| 0 <= i < fewer.len() implies (#[trigger] fewer[i]) == '\r'
            || fewer[i] == '\n' by {
            assert(fewer[i] == ends[i]);
        }
        assert(contents.last() == ends[ends.len() - 1]);
        assert(contents.drop_last() =~= token + fewer);
        law_bearer_token_is_the_file_without_line_ends(token, fewer);
    }
}

/// A bearer token file is read just where it is a regular file and no link, holds one byte to 16
/// KiB, and, where files have modes, is readable and writable for its owner alone.
pub proof fn law_bearer_token_files_are_private(file: TokenFileFacts)
    ensures
        token_file_fault(file) is None <==> !file.is_symlink && file.is_file && 1 <= file.length
            <= 16 * 1024 && (file.mode matches Some(mode) ==> mode & 0o777 == 0o600),
{
}

/// Credentials come from a bearer token file just where the environment says so, in letters of
/// either case and with white space around it or not; without a word, or with an empty one, they
/// come from the login. Any other word is refused.
pub proof fn law_modes_are_named(text: String)
    ensures
        mode_in(None) == Ok::<CodexAuthMode, Seq<char>>(CodexAuthMode::OAuth),
        mode_in(Some(EnvText::NotUnicode)) is Err,
        ({
            let word = parts::lower_case(parts::trimmed(text@));
            let mode = mode_in(Some(EnvText::Text(text)));
            &&& mode == Ok::<CodexAuthMode, Seq<char>>(CodexAuthMode::BearerFile) <==> word
                == "bearer_file"@
            &&& mode == Ok::<CodexAuthMode, Seq<char>>(CodexAuthMode::OAuth) <==> word == "oauth"@
                || word.len() == 0
            &&& mode is Err <==> word != "bearer_file"@ && word != "oauth"@ && word.len() > 0
        }),
{
    reveal_strlit("bearer_file");
    reveal_strlit("oauth");
    assert("bearer_file"@.len() == 11 && "oauth"@.len() == 5);
}

/// The path of a bearer token file is taken as it is given, unless nothing but white space is.
pub proof fn law_token_paths_are_taken_as_given(text: String)
    ensures
        token_path_in(None) is Err,
        token_path_in(Some(EnvText::NotUnicode)) is Err,
        token_path_in(Some(EnvText::Text(text))) is Ok <==> parts::trimmed(text@).len() > 0,
        token_path_in(Some(EnvText::Text(text))) is Ok ==> token_path_in(
            Some(EnvText::Text(text)),
        )->Ok_0 == text@,
{
}

/// A mode that is refused is refused for being no text, or for being no name of a mode.
pub proof fn law_refused_modes_are_named(raw: EnvText, refused: Seq<char>)
    requires
        mode_in(Some(raw)) == Err::<CodexAuthMode, Seq<char>>(refused),
    ensures
        raw is NotUnicode ==> refused == "CCP_CODEX_AUTH_MODE must be valid UTF-8"@,
        raw is Text ==> refused == "CCP_CODEX_AUTH_MODE must be oauth or bearer_file"@,
{
}

/// A path of a bearer token file is refused where there is none, where it is no text, and where it is
/// empty but for white space.
pub proof fn law_refused_token_paths_are_named(raw: Option<EnvText>)
    ensures
        raw is None ==> token_path_in(raw) == Err::<Seq<char>, Seq<char>>(
            "CCP_CODEX_BEARER_TOKEN_FILE is required in bearer_file mode"@,
        ),
        raw matches Some(held) ==> (held is NotUnicode ==> token_path_in(raw) == Err::<
            Seq<char>,
            Seq<char>,
        >("CCP_CODEX_BEARER_TOKEN_FILE must be valid UTF-8"@)),
        raw matches Some(held) ==> (held matches EnvText::Text(path) ==> (token_path_in(raw)
            == Err::<Seq<char>, Seq<char>>("CCP_CODEX_BEARER_TOKEN_FILE must not be empty"@)
            <==> parts::trimmed(path@).len() == 0)),
{
}

/// A bearer token file is refused for the first of what is wrong with it: it is a link, it is no
/// regular file, it is empty or larger than 16 KiB, or others than its owner have a part in it.
pub proof fn law_refused_token_files_are_named(file: TokenFileFacts)
    ensures
        file.is_symlink ==> token_file_fault(file) == Some(
            "Bearer token file must not be a symlink"@,
        ),
        !file.is_symlink && !file.is_file ==> token_file_fault(file) == Some(
            "Bearer token path must be a regular file"@,
        ),
        !file.is_symlink && file.is_file && (file.length == 0 || file.length > 16384)
            ==> token_file_fault(file) == Some("Bearer token file has an invalid size"@),
        !file.is_symlink && file.is_file && 0 < file.length <= 16384 ==> (
        file.mode matches Some(mode) ==> (mode & 0o777 != 0o600 ==> token_file_fault(file) == Some(
            "Bearer token file permissions must be 0600"@,
        ))),
{
}

/// What the failure of a renewal says.
pub open spec fn failure_text(status: u16) -> Seq<char> {
    "Token refresh failed: "@ + decimal::decimal(status as nat)
}

/// The failure of a renewal ends with the status, by which two failures are told apart.
pub proof fn law_failed_renewals_tell_the_status(a: u16, b: u16)
    ensures
        failure_text(a).take(22) == "Token refresh failed: "@,
        failure_text(a).skip(22) == decimal::decimal(a as nat),
        failure_text(a) == failure_text(b) ==> a == b,
{
    reveal_strlit("Token refresh failed: ");
    assert("Token refresh failed: "@.len() == 22);
    assert(failure_text(a).take(22) =~= "Token refresh failed: "@);
    assert(failure_text(a).skip(22) =~= decimal::decimal(a as nat));
    assert(failure_text(b).skip(22) =~= decimal::decimal(b as nat));
    decimal::law_decimal_digits_have_the_value(a as nat);
    decimal::law_decimal_digits_have_the_value(b as nat);
}

}
