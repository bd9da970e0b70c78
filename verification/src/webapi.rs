//! The value types and decisions of the public web-API lookups. The
//! lookups themselves are HTTP requests and live outside this library;
//! what can be computed from their plain answers — splitting the blocked
//! server list, classifying ban reasons, assembling the attribute set —
//! is here.

use vstd::prelude::*;
use vstd::string::StrSliceExecFns;

use crate::text::str_eq;
use crate::web::Error;

verus! {

/// A profile lookup's answer.
#[derive(Eq, PartialEq, Clone, Debug)]
pub struct ProfileResponse {
    pub id: String,
    pub name: String,
    pub properties: Vec<Property>,
}

/// One property of a profile.
#[derive(Eq, PartialEq, Clone, Debug)]
pub struct Property {
    pub name: String,
    pub value: String,
    pub signature: Option<String>,
}

/// The attribute set of a player: the four privilege switches and the
/// multiplayer ban scope, when one is active.
#[derive(Eq, PartialEq, Debug, Clone)]
pub struct PlayerAttributes {
    pub privileges: Vec<Privilege>,
    ban_status: Option<BanStatus>,
}

impl PlayerAttributes {
    /// The active multiplayer ban, if any.
    pub closed spec fn spec_ban_status(&self) -> Option<BanStatus> {
        self.ban_status
    }

    /// The privilege switches, in their fixed order.
    pub closed spec fn spec_privileges(&self) -> Seq<Privilege> {
        self.privileges@
    }
}

/// One named privilege switch.
#[derive(Eq, PartialEq, Debug, Clone)]
pub struct Privilege {
    pub name: &'static str,
    pub enabled: bool,
}

/// An active ban: its id, when it expires, why it was issued, and the
/// free-text explanation when one was given.
#[derive(Eq, PartialEq, Debug, Clone)]
pub struct BanStatus {
    ban_id: String,
    expires: i64,
    reason: BanReason,
    reason_message: Option<String>,
}

impl BanStatus {
    pub closed spec fn spec_ban_id(&self) -> Seq<char> {
        self.ban_id@
    }

    pub closed spec fn spec_expires(&self) -> i64 {
        self.expires
    }

    pub closed spec fn spec_reason(&self) -> BanReason {
        self.reason
    }

    pub closed spec fn spec_reason_message(&self) -> Option<String> {
        self.reason_message
    }
}

/// Why a ban was issued.
#[derive(Eq, PartialEq, Structural, Debug, Clone, Copy)]
pub enum BanReason {
    FalseReporting,
    HateSpeech,
    TerrorismOrViolentExtremism,
    ChildSexualAbuse,
    ImminentHarm,
    NonConsensualIntimateImagery,
    HarassmentOrBullying,
    DefamationImpersonationFalseInformation,
    SelfHarmOrSuicide,
    AlcoholTobaccoDrugs,
}

/// The reason literal each [`BanReason`] stands for.
pub open spec fn reason_literal(r: BanReason) -> Seq<char> {
    match r {
        BanReason::FalseReporting => "false_reporting"@,
        BanReason::HateSpeech => "hate_speech"@,
        BanReason::TerrorismOrViolentExtremism => "terrorism_or_violent_extremism"@,
        BanReason::ChildSexualAbuse => "child_sexual_exploitation_or_abuse"@,
        BanReason::ImminentHarm => "imminent_harm"@,
        BanReason::NonConsensualIntimateImagery => "non_consensual_intimate_imagery"@,
        BanReason::HarassmentOrBullying => "harassment_or_bullying"@,
        BanReason::DefamationImpersonationFalseInformation =>
            "defamation_impersonation_false_information"@,
        BanReason::SelfHarmOrSuicide => "self_harm_or_suicide"@,
        BanReason::AlcoholTobaccoDrugs => "alcohol_tobacco_drugs"@,
    }
}

impl BanReason {
    /// Classifies a ban-reason literal. An unknown literal is an explicit
    /// `None`, never an abort.
    pub fn from_string(string: String) -> (r: Option<BanReason>)
        ensures
            (match r {
                Some(reason) => string@ == reason_literal(reason),
                None => forall|reason: BanReason| string@ != reason_literal(reason),
            }),
    {
        let s = string.as_str();
        if str_eq(s, "false_reporting") {
            Some(BanReason::FalseReporting)
        } else if str_eq(s, "hate_speech") {
            Some(BanReason::HateSpeech)
        } else if str_eq(s, "terrorism_or_violent_extremism") {
            Some(BanReason::TerrorismOrViolentExtremism)
        } else if str_eq(s, "child_sexual_exploitation_or_abuse") {
            Some(BanReason::ChildSexualAbuse)
        } else if str_eq(s, "imminent_harm") {
            Some(BanReason::ImminentHarm)
        } else if str_eq(s, "non_consensual_intimate_imagery") {
            Some(BanReason::NonConsensualIntimateImagery)
        } else if str_eq(s, "harassment_or_bullying") {
            Some(BanReason::HarassmentOrBullying)
        } else if str_eq(s, "defamation_impersonation_false_information") {
            Some(BanReason::DefamationImpersonationFalseInformation)
        } else if str_eq(s, "self_harm_or_suicide") {
            Some(BanReason::SelfHarmOrSuicide)
        } else if str_eq(s, "alcohol_tobacco_drugs") {
            Some(BanReason::AlcoholTobaccoDrugs)
        } else {
            proof {
                assert forall|reason: BanReason| string@ != reason_literal(reason) by {}
            }
            None
        }
    }
}

/// The ban scope as the attributes endpoint reports it, in plain values.
#[derive(Eq, PartialEq, Clone, Debug)]
pub struct BanScope {
    pub ban_id: String,
    pub expires: i64,
    pub reason: String,
    pub reason_message: Option<String>,
}

/// Builds the attribute set from the plain values the attributes endpoint
/// reports: the four privilege switches, in their fixed order, and the
/// multiplayer ban scope when one is present. A ban whose reason literal
/// is unknown is a parse error carrying code 19.
pub fn assemble_player_attributes(
    online_chat: bool,
    multiplayer_server: bool,
    multiplayer_realms: bool,
    telemetry: bool,
    ban: Option<BanScope>,
) -> (r: Result<PlayerAttributes, Error>)
    ensures
        (match ban {
            None => r matches Ok(a) && a.spec_ban_status() is None,
            Some(scope) => if (exists|reason: BanReason| scope.reason@ == reason_literal(reason)) {
                r matches Ok(a) && (a.spec_ban_status() matches Some(bs) && bs.spec_ban_id()
                    == scope.ban_id@ && bs.spec_expires() == scope.expires && scope.reason@
                    == reason_literal(bs.spec_reason()) && bs.spec_reason_message()
                    == scope.reason_message)
            } else {
                r matches Err(e) && e.spec_code() == 19
            },
        }),
        r matches Ok(a) ==> (a.spec_privileges().len() == 4 && a.spec_privileges()[0].name@
            == "onlineChat"@ && a.spec_privileges()[0].enabled == online_chat
            && a.spec_privileges()[1].name@ == "multiplayerServer"@
            && a.spec_privileges()[1].enabled == multiplayer_server
            && a.spec_privileges()[2].name@ == "multiplayerRealms"@
            && a.spec_privileges()[2].enabled == multiplayer_realms
            && a.spec_privileges()[3].name@ == "telemetry"@ && a.spec_privileges()[3].enabled
            == telemetry),
{
    let ban_status = match ban {
        None => None,
        Some(scope) => {
            let reason = match BanReason::from_string(scope.reason.clone()) {
                Some(reason) => reason,
                None => {
                    return Err(
                        Error::new(
                            "Unable to parse the ban reason from the attributes answer".to_owned(),
                            19,
                        ),
                    );
                },
            };
            Some(
                BanStatus {
                    ban_id: scope.ban_id,
                    expires: scope.expires,
                    reason,
                    reason_message: scope.reason_message,
                },
            )
        },
    };
    let mut privileges: Vec<Privilege> = Vec::new();
    privileges.push(Privilege { name: "onlineChat", enabled: online_chat });
    privileges.push(Privilege { name: "multiplayerServer", enabled: multiplayer_server });
    privileges.push(Privilege { name: "multiplayerRealms", enabled: multiplayer_realms });
    privileges.push(Privilege { name: "telemetry", enabled: telemetry });
    Ok(PlayerAttributes { ban_status, privileges })
}

/// The lines of `s`, split at every newline: what remains of a scan that
/// stands at `i` with the current line having started at `start`.
pub open spec fn split_lines_at(s: Seq<char>, i: int, start: int) -> Seq<Seq<char>>
    decreases s.len() - i,
{
    if i < 0 || i >= s.len() || start < 0 || start > i {
        seq![s.subrange(if 0 <= start <= s.len() { start } else { 0 }, s.len() as int)]
    } else if s[i] == '\n' {
        seq![s.subrange(start, i)] + split_lines_at(s, i + 1, i + 1)
    } else {
        split_lines_at(s, i + 1, start)
    }
}

/// The lines of `s`, split at every newline; a trailing newline yields a
/// final empty line, and an empty text is one empty line.
pub open spec fn split_lines(s: Seq<char>) -> Seq<Seq<char>> {
    split_lines_at(s, 0, 0)
}

/// Splits the blocked-server answer into one entry per line.
#[verifier::loop_isolation(false)]
pub fn parse_blocked_servers(response: &str) -> (r: Vec<String>)
    ensures
        r@.map_values(|s: String| s@) == split_lines(response@),
{
    let n = response.unicode_len();
    let mut out: Vec<String> = Vec::new();
    let mut start: usize = 0;
    let mut i: usize = 0;
    proof {
        assert(out@.map_values(|s: String| s@) + split_lines_at(response@, 0, 0) =~= split_lines(
            response@,
        ));
    }
    while i < n
        invariant
            start <= i <= n,
            n == response@.len(),
            split_lines(response@) == out@.map_values(|s: String| s@) + split_lines_at(
                response@,
                i as int,
                start as int,
            ),
        decreases n - i,
    {
        let c = response.get_char(i);
        if c == '\n' {
            let seg = response.substring_char(start, i);
            out.push(seg.to_owned());
            start = i + 1;
            proof {
                assert((out@.drop_last().map_values(|s: String| s@) + seq![
                    response@.subrange(start - 1 - seg@.len(), start - 1),
                ]) + split_lines_at(response@, i + 1, i + 1) =~= out@.map_values(|s: String| s@)
                    + split_lines_at(response@, i + 1, i + 1));
                assert(out@.drop_last().map_values(|s: String| s@) =~= out@.map_values(
                    |s: String| s@,
                ).drop_last());
            }
        }
        i += 1;
    }
    let last = response.substring_char(start, n);
    out.push(last.to_owned());
    proof {
        assert(split_lines_at(response@, n as int, start as int) =~= seq![
            response@.subrange(start as int, n as int),
        ]);
        assert(out@.map_values(|s: String| s@) =~= out@.drop_last().map_values(|s: String| s@)
            + seq![response@.subrange(start as int, n as int)]);
        assert(out@.drop_last().map_values(|s: String| s@) =~= out@.map_values(
            |s: String| s@,
        ).drop_last());
    }
    out
}

} // verus!
