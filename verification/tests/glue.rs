use minerust::auth::microsoft::{
    AuthToken, MinecraftEdition, TokenType as XboxTokenType, XSTSError, XSTSErrorType,
    XSTSTokenError,
};
use minerust::auth::{Session, TokenType};
use minerust::network::connection::UuidValue;
use minerust::text::str_eq;
use minerust::web::Error;
use minerust::webapi::{
    BanReason, BanScope, Privilege, assemble_player_attributes, parse_blocked_servers,
};

#[test]
fn str_eq_compares_characters_exactly() {
    assert!(str_eq("", ""));
    assert!(str_eq("Bearer", "Bearer"));
    assert!(!str_eq("Bearer", "bearer"));
    assert!(!str_eq("Bearer", "Bear"));
    assert!(str_eq("h\u{e9}", "h\u{e9}"));
    assert!(!str_eq("h\u{e9}", "he"));
}

#[test]
fn token_type_parses_only_bearer() {
    assert_eq!(TokenType::from_str("Bearer"), Some(TokenType::Bearer));
    assert_eq!(TokenType::from_str("bearer"), None);
    assert_eq!(TokenType::from_str(""), None);
}

#[test]
fn xsts_error_codes_classify() {
    assert_eq!(XSTSErrorType::from_u64(2148916233), Some(XSTSErrorType::NoXboxAccount));
    assert_eq!(XSTSErrorType::from_u64(2148916235), Some(XSTSErrorType::XboxBannedOrNotAvailable));
    assert_eq!(XSTSErrorType::from_u64(2148916236), Some(XSTSErrorType::NeedsAdultVerification));
    assert_eq!(XSTSErrorType::from_u64(2148916237), Some(XSTSErrorType::NeedsAdultVerification));
    assert_eq!(XSTSErrorType::from_u64(2148916238), Some(XSTSErrorType::AccountIsChild));
    assert_eq!(XSTSErrorType::from_u64(0), None);
    assert_eq!(XSTSErrorType::from_u64(2148916234), None);
}

#[test]
fn xsts_error_converts_only_plain_failures() {
    let plain = XSTSError::normal(String::from("token endpoint refused"), 7);
    let converted = plain.to_error().unwrap();
    assert_eq!(converted.message(), "token endpoint refused");
    assert_eq!(converted.code(), 7);

    let structured = XSTSError::token_error(XSTSTokenError {
        identity: 0,
        error_code: 2148916238,
        error_type: XSTSErrorType::AccountIsChild,
        redirect: String::from("https://start.ui.xboxlive.com/AddChildToFamily"),
        message: String::new(),
    });
    assert!(structured.to_error().is_err());
}

#[test]
fn web_error_carries_message_and_code() {
    let e = Error::new(String::from("no such user"), 15);
    assert_eq!(e.message(), "no such user");
    assert_eq!(e.code(), 15);
}

#[test]
fn session_holds_plain_values() {
    let session = Session {
        username: UuidValue { most_significant: 1, least_significant: 2 },
        roles: vec![String::from("player")],
        access_token: String::from("token-abc"),
        token_type: TokenType::Bearer,
        expires_in: 86400,
    };
    assert_eq!(session.clone(), session);
    let token = AuthToken {
        token: String::from("xsts-token"),
        user_hash: String::from("uhs"),
        token_type: XboxTokenType::XSLS,
    };
    assert_eq!(token.token_type, XboxTokenType::XSLS);
    assert_ne!(MinecraftEdition::Java, MinecraftEdition::Bedrock);
}

#[test]
fn ban_reasons_parse_their_literals() {
    let cases = [
        ("false_reporting", BanReason::FalseReporting),
        ("hate_speech", BanReason::HateSpeech),
        ("terrorism_or_violent_extremism", BanReason::TerrorismOrViolentExtremism),
        ("child_sexual_exploitation_or_abuse", BanReason::ChildSexualAbuse),
        ("imminent_harm", BanReason::ImminentHarm),
        ("non_consensual_intimate_imagery", BanReason::NonConsensualIntimateImagery),
        ("harassment_or_bullying", BanReason::HarassmentOrBullying),
        (
            "defamation_impersonation_false_information",
            BanReason::DefamationImpersonationFalseInformation,
        ),
        ("self_harm_or_suicide", BanReason::SelfHarmOrSuicide),
        ("alcohol_tobacco_drugs", BanReason::AlcoholTobaccoDrugs),
    ];
    for (literal, reason) in cases {
        assert_eq!(BanReason::from_string(String::from(literal)), Some(reason));
    }
    assert_eq!(BanReason::from_string(String::from("tax_evasion")), None);
    assert_eq!(BanReason::from_string(String::new()), None);
}

#[test]
fn player_attributes_assemble_in_order() {
    let attributes = assemble_player_attributes(true, true, false, true, None).unwrap();
    assert_eq!(
        attributes.privileges,
        vec![
            Privilege { name: "onlineChat", enabled: true },
            Privilege { name: "multiplayerServer", enabled: true },
            Privilege { name: "multiplayerRealms", enabled: false },
            Privilege { name: "telemetry", enabled: true },
        ]
    );
}

#[test]
fn player_attributes_keep_the_ban_scope() {
    let scope = BanScope {
        ban_id: String::from("b-1"),
        expires: 1700000000,
        reason: String::from("hate_speech"),
        reason_message: Some(String::from("reported in chat")),
    };
    let banned = assemble_player_attributes(true, false, false, false, Some(scope)).unwrap();
    let same_scope = BanScope {
        ban_id: String::from("b-1"),
        expires: 1700000000,
        reason: String::from("hate_speech"),
        reason_message: Some(String::from("reported in chat")),
    };
    let again = assemble_player_attributes(true, false, false, false, Some(same_scope)).unwrap();
    assert_eq!(banned, again);

    let unknown = BanScope {
        ban_id: String::from("b-2"),
        expires: 0,
        reason: String::from("unlisted"),
        reason_message: None,
    };
    let rejected = assemble_player_attributes(true, true, true, true, Some(unknown));
    assert_eq!(rejected.unwrap_err().code(), 19);
}

#[test]
fn blocked_servers_split_per_line() {
    assert_eq!(
        parse_blocked_servers("aaaa\nbbbb\ncccc"),
        vec![String::from("aaaa"), String::from("bbbb"), String::from("cccc")]
    );
    assert_eq!(parse_blocked_servers(""), vec![String::new()]);
    assert_eq!(parse_blocked_servers("solo"), vec![String::from("solo")]);
    assert_eq!(
        parse_blocked_servers("tail\n"),
        vec![String::from("tail"), String::new()]
    );
}
