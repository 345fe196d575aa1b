//! Credentials: where they come from and when they are renewed.

use claudex_bridge::auth::{
    auth_after_rejection, auth_from_tokens, bearer_token_path, check_token_file, choose_after_lock,
    choose_auth, choose_bearer_auth, classify_refresh_status, codex_auth_mode, read_bearer_token,
    refresh_failure, refresh_form, AuthDecision, AuthError, CodexAuthMode, IssuedTokens,
    RefreshReply, StoredAuth, TokenFileFacts, MAX_BEARER_TOKEN_FILE_BYTES,
};
use claudex_bridge::config::EnvText;

fn load_bearer(contents: &str, mode: u32) -> Result<StoredAuth, AuthError> {
    check_token_file(&TokenFileFacts {
        is_symlink: false,
        is_file: true,
        length: contents.len() as u64,
        mode: Some(mode),
    })?;
    read_bearer_token(contents)
}

fn auth(access: &str, refresh: &str, expires: u64) -> StoredAuth {
    StoredAuth {
        access: access.to_string(),
        refresh: refresh.to_string(),
        expires,
        account_id: Some("acct_1".to_string()),
    }
}

#[test]
fn bearer_file_auth_reads_secure_token_without_oauth_identity() {
    let auth = load_bearer("test-bearer-token\n", 0o600).unwrap();
    assert_eq!(auth.access, "test-bearer-token");
    assert!(auth.refresh.is_empty());
    assert_eq!(auth.expires, u64::MAX);
    assert!(auth.account_id.is_none());
}

#[test]
fn bearer_file_auth_rejects_group_or_other_permissions() {
    let error = load_bearer("test-bearer-token\n", 0o640).unwrap_err();
    assert!(error.message.contains("0600"));
}

#[test]
fn bearer_file_auth_rejects_multiline_token_files() {
    let error = load_bearer("first-token\nsecond-token\n", 0o600).unwrap_err();
    assert!(error.message.contains("exactly one token"));
}

#[test]
fn bearer_files_are_regular_and_of_reasonable_size() {
    let good = TokenFileFacts {
        is_symlink: false,
        is_file: true,
        length: MAX_BEARER_TOKEN_FILE_BYTES,
        mode: None,
    };
    assert!(check_token_file(&good).is_ok());
    let cases = [
        (
            TokenFileFacts { is_symlink: true, ..good },
            "Bearer token file must not be a symlink",
        ),
        (
            TokenFileFacts { is_file: false, ..good },
            "Bearer token path must be a regular file",
        ),
        (
            TokenFileFacts { length: 0, ..good },
            "Bearer token file has an invalid size",
        ),
        (
            TokenFileFacts {
                length: MAX_BEARER_TOKEN_FILE_BYTES + 1,
                ..good
            },
            "Bearer token file has an invalid size",
        ),
    ];
    for (file, expected) in cases {
        assert_eq!(check_token_file(&file).unwrap_err().message, expected);
    }
    assert_eq!(
        read_bearer_token("\r\n\n").unwrap_err().message,
        "Bearer token file is empty"
    );
    assert_eq!(
        read_bearer_token("to\u{a0}ken").unwrap_err().message,
        "Bearer token file must contain exactly one token"
    );
    assert_eq!(read_bearer_token("token\r\n\n").unwrap().access, "token");
}

#[test]
fn modes_are_read_from_the_environment() {
    let text = |mode: &str| Some(EnvText::Text(mode.to_string()));
    assert_eq!(codex_auth_mode(&None).unwrap(), CodexAuthMode::OAuth);
    assert_eq!(codex_auth_mode(&text("")).unwrap(), CodexAuthMode::OAuth);
    assert_eq!(codex_auth_mode(&text(" OAuth ")).unwrap(), CodexAuthMode::OAuth);
    assert_eq!(
        codex_auth_mode(&text("Bearer_File")).unwrap(),
        CodexAuthMode::BearerFile
    );
    assert_eq!(
        codex_auth_mode(&text("other")).unwrap_err().message,
        "CCP_CODEX_AUTH_MODE must be oauth or bearer_file"
    );
    assert_eq!(
        codex_auth_mode(&Some(EnvText::NotUnicode)).unwrap_err().message,
        "CCP_CODEX_AUTH_MODE must be valid UTF-8"
    );
    assert_eq!(bearer_token_path(text(" /run/token ")).unwrap(), " /run/token ");
    assert_eq!(
        bearer_token_path(text("  ")).unwrap_err().message,
        "CCP_CODEX_BEARER_TOKEN_FILE must not be empty"
    );
    assert_eq!(
        bearer_token_path(None).unwrap_err().message,
        "CCP_CODEX_BEARER_TOKEN_FILE is required in bearer_file mode"
    );
    assert_eq!(
        bearer_token_path(Some(EnvText::NotUnicode)).unwrap_err().message,
        "CCP_CODEX_BEARER_TOKEN_FILE must be valid UTF-8"
    );
}

#[test]
fn stored_auth_is_used_while_it_lasts() {
    let stored = auth("test_access", "test_refresh", 9_999_999_999_999);
    match choose_auth(Some(stored), 1_700_000_000_000, 300_000, "login").unwrap() {
        AuthDecision::Use(result) => {
            assert_eq!(result.access, "test_access");
            assert_eq!(result.account_id.as_deref(), Some("acct_1"));
        }
        other => panic!("expected the stored auth, got {other:?}"),
    }
    let edge = auth("edge", "refresh", 1_000);
    assert!(matches!(
        choose_auth(Some(edge.clone()), 700, 300, "login").unwrap(),
        AuthDecision::Refresh(None)
    ));
    assert!(matches!(
        choose_auth(Some(edge), 699, 300, "login").unwrap(),
        AuthDecision::Use(_)
    ));
}

#[test]
fn missing_auth_names_the_login_command() {
    let error = choose_auth(None, 0, 0, "bridge auth login").unwrap_err();
    assert!(error.message.contains("Not authenticated"));
    assert_eq!(error.message, "Not authenticated. Run: bridge auth login");
}

#[test]
fn waiting_requests_use_what_the_first_one_stored() {
    let rotated = auth("rotated", "rotated-refresh", u64::MAX);
    assert!(matches!(
        choose_after_lock(Some(rotated.clone()), true, Some("rejected"), 0, 0).unwrap(),
        AuthDecision::Use(used) if used.access == "rotated" && used.refresh == "rotated-refresh"
    ));
    assert!(matches!(
        choose_after_lock(Some(rotated.clone()), false, None, 10, 10).unwrap(),
        AuthDecision::Use(_)
    ));
    assert!(matches!(
        choose_after_lock(Some(rotated), true, Some("rotated"), 0, 0).unwrap(),
        AuthDecision::Refresh(Some(current)) if current.refresh == "rotated-refresh"
    ));
    assert_eq!(
        choose_after_lock(None, false, None, 0, 0).unwrap_err().message,
        "Not authenticated"
    );
    assert_eq!(
        choose_after_lock(Some(auth("expired", "", 0)), false, None, 1, 1)
            .unwrap_err()
            .message,
        "No refresh token stored; re-authenticate"
    );
}

#[test]
fn rejected_bearer_tokens_are_not_renewed() {
    let current = auth("current", "", u64::MAX);
    assert_eq!(
        choose_bearer_auth(current.clone(), "rejected").unwrap().access,
        "current"
    );
    assert_eq!(
        choose_bearer_auth(current, "current").unwrap_err().message,
        "Configured bearer token was rejected; OAuth refresh is disabled"
    );
}

#[test]
fn renewal_requests_and_replies() {
    let form = refresh_form("client", &auth("expired", "stale", 0));
    assert_eq!(
        form,
        vec![
            ("client_id".to_string(), "client".to_string()),
            ("grant_type".to_string(), "refresh_token".to_string()),
            ("refresh_token".to_string(), "stale".to_string()),
        ]
    );
    assert_eq!(classify_refresh_status(401), RefreshReply::Rejected);
    assert_eq!(classify_refresh_status(403), RefreshReply::Rejected);
    assert_eq!(classify_refresh_status(200), RefreshReply::Accepted);
    assert_eq!(classify_refresh_status(299), RefreshReply::Accepted);
    assert_eq!(classify_refresh_status(300), RefreshReply::Failed);
    assert_eq!(classify_refresh_status(500), RefreshReply::Failed);
    assert_eq!(refresh_failure(500).message, "Token refresh failed: 500");
}

#[test]
fn unauthorized_refresh_keeps_changed_credentials() {
    let current = auth("same-access", "rejected-refresh", 0);
    let replaced = auth("same-access", "replacement-refresh", u64::MAX);
    assert_eq!(
        auth_after_rejection(&current, Some(replaced.clone())),
        Some(replaced)
    );
    assert_eq!(auth_after_rejection(&current, Some(current.clone())), None);
    assert_eq!(auth_after_rejection(&current, None), None);
}

#[test]
fn new_tokens_replace_the_old_ones() {
    let tokens = |expires_in, account: Option<&str>| IssuedTokens {
        access_token: "rotated".to_string(),
        refresh_token: "rotated-refresh".to_string(),
        expires_in,
        account_id: account.map(str::to_string),
    };
    let current = auth("expired", "stale", 0);
    let next = auth_from_tokens(tokens(Some(60), None), Some(&current), 1_000);
    assert_eq!(next.access, "rotated");
    assert_eq!(next.refresh, "rotated-refresh");
    assert_eq!(next.expires, 61_000);
    assert_eq!(next.account_id.as_deref(), Some("acct_1"));
    let first = auth_from_tokens(tokens(None, Some("acct_2")), None, 1_000);
    assert_eq!(first.expires, 3_601_000);
    assert_eq!(first.account_id.as_deref(), Some("acct_2"));
    assert_eq!(auth_from_tokens(tokens(None, None), None, 0).account_id, None);
}
