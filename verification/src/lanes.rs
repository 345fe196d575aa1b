//! Lanes: each agent of a session has a transcript of its own.

use vstd::prelude::*;
use vstd::string::*;

use crate::digest::hash_text;
use crate::digest;
use crate::text;

verus! {

/// Whose conversation a request belongs to: the main one of a session, or that of an agent in it.
#[derive(Debug, Clone, PartialEq, Eq)]
pub enum ConversationIdentity {
    Main(String),
    Agent(String, String),
}

/// The identifier of the lane of an agent in a session. A lane needs a session; a lane without an
/// agent is that of the session itself. A session identifier is a header value and holds no NUL.
pub open spec fn lane_id(session: Option<Seq<char>>, agent: Option<Seq<char>>) -> Option<Seq<char>> {
    match session {
        Some(session) => if session.len() == 0 {
            None
        } else {
            match agent {
                Some(agent) => if agent.len() == 0 {
                    Some(session)
                } else {
                    Some(session.push('\0') + agent)
                },
                None => Some(session),
            }
        },
        None => None,
    }
}

/// The contents of an optional string slice.
pub open spec fn slice_text(text: Option<&str>) -> Option<Seq<char>> {
    match text {
        Some(text) => Some(text@),
        None => None,
    }
}

/// The identifier of the lane of an identity.
pub open spec fn identity_lane(identity: Option<&ConversationIdentity>) -> Option<Seq<char>> {
    match identity {
        Some(ConversationIdentity::Main(session)) => lane_id(Some(session@), None),
        Some(ConversationIdentity::Agent(session, agent)) => lane_id(Some(session@), Some(agent@)),
        None => None,
    }
}

/// The identifier of the lane of an agent in a session.
pub fn state_lane_id(session_id: Option<&str>, agent_id: Option<&str>) -> (lane: Option<String>)
    ensures
        text::optional_text(lane) == lane_id(slice_text(session_id), slice_text(agent_id)),
{
    let session = match session_id {
        Some(session) => session,
        None => {
            return None;
        },
    };
    if session.is_empty() {
        return None;
    }
    let agent = match agent_id {
        Some(agent) => agent,
        None => {
            return Some(session.to_owned());
        },
    };
    if agent.is_empty() {
        return Some(session.to_owned());
    }
    let mut lane = session.to_owned();
    lane.push('\0');
    lane.append(agent);
    Some(lane)
}

/// The identifier of the lane of an identity.
pub fn state_lane_id_from_identity(identity: Option<&ConversationIdentity>) -> (lane: Option<
    String,
>)
    ensures
        text::optional_text(lane) == identity_lane(identity),
{
    match identity {
        Some(ConversationIdentity::Main(session)) => state_lane_id(Some(session.as_str()), None),
        Some(ConversationIdentity::Agent(session, agent)) => state_lane_id(
            Some(session.as_str()),
            Some(agent.as_str()),
        ),
        None => None,
    }
}

/// The hash by which a lane is named outside.
pub fn telemetry_lane_hash(lane_id: &str) -> (hash: String)
    ensures
        hash@ == digest::text_fingerprint(lane_id@),
        hash@.len() == 64,
{
    hash_text(lane_id)
}

/// The agent of a lane: none where it is empty.
pub open spec fn effective_agent(agent: Option<Seq<char>>) -> Option<Seq<char>> {
    match agent {
        Some(agent) => if agent.len() == 0 {
            None
        } else {
            Some(agent)
        },
        None => None,
    }
}

/// Different agents have different lanes, and so have different sessions, where no session
/// identifier holds a NUL.
pub proof fn law_lanes_are_distinct(
    a_session: Seq<char>,
    a_agent: Option<Seq<char>>,
    b_session: Seq<char>,
    b_agent: Option<Seq<char>>,
)
    requires
        !a_session.contains('\0'),
        !b_session.contains('\0'),
        lane_id(Some(a_session), a_agent) is Some,
        lane_id(Some(a_session), a_agent) == lane_id(Some(b_session), b_agent),
    ensures
        a_session == b_session,
        effective_agent(a_agent) == effective_agent(b_agent),
{
    let lane = lane_id(Some(a_session), a_agent)->0;
    let (m, n) = (a_session.len() as int, b_session.len() as int);
    assert(forall|i: int| 0 <= i < m ==> lane[i] == a_session[i]);
    assert(forall|i: int| 0 <= i < n ==> lane[i] == b_session[i]);
    assert(effective_agent(a_agent) is Some ==> lane[m] == '\0');
    assert(effective_agent(b_agent) is Some ==> lane[n] == '\0');
    assert(m == n) by {
        if m < n {
            assert(b_session[m] == '\0');
        }
        if n < m {
            assert(a_session[n] == '\0');
        }
    }
    assert(a_session =~= b_session);
    if effective_agent(a_agent) is Some {
        assert(lane.skip(m + 1) =~= a_agent->0);
    }
    if effective_agent(b_agent) is Some {
        assert(lane.skip(m + 1) =~= b_agent->0);
    }
}

/// The lane of a session keeps the identifier of the session.
pub proof fn law_parent_lane_is_the_session(session: Seq<char>)
    requires
        session.len() > 0,
    ensures
        lane_id(Some(session), None) == Some(session),
        lane_id(Some(session), Some(Seq::empty())) == Some(session),
{
}

/// There is a lane exactly where there is a session that is not empty. Its identifier begins with
/// that of the session, and where there is an agent that is not empty a NUL and the agent follow.
pub proof fn law_lanes_are_named_by_session_and_agent(
    session: Seq<char>,
    agent: Seq<char>,
    lane: Seq<char>,
    at: int,
)
    requires
        at == session.len(),
    ensures
        lane_id(None, None) is None,
        lane_id(None, Some(agent)) is None,
        session.len() == 0 ==> lane_id(Some(session), None) is None && lane_id(
            Some(session),
            Some(agent),
        ) is None,
        session.len() > 0 && agent.len() > 0 ==> (lane_id(Some(session), Some(agent)) == Some(lane)
            <==> {
            &&& lane.len() == at + 1 + agent.len()
            &&& lane.take(at) == session
            &&& lane[at] as int == 0
            &&& lane.skip(at + 1) == agent
        }),
{
    let made = session.push('\0') + agent;
    assert(made.take(at) =~= session);
    assert(made.skip(at + 1) =~= agent);
    if lane.len() == made.len() && lane.take(at) == session && lane[at] as int == 0 && lane.skip(
        at + 1,
    ) == agent {
        assert forall|i: int| 0 <= i < lane.len() implies lane[i] == made[i] by {
            if i < at {
                assert(lane.take(at)[i] == lane[i]);
            } else if i > at {
                assert(lane.skip(at + 1)[i - at - 1] == lane[i]);
            }
        }
        assert(lane =~= made);
    }
}

/// The main conversation of a session has the lane of the session, and an agent has its own.
pub proof fn law_identities_have_lanes(session: String, agent: String)
    ensures
        identity_lane(None) is None,
        session@.len() > 0 ==> identity_lane(Some(&ConversationIdentity::Main(session))) == Some(
            session@,
        ),
        session@.len() > 0 && agent@.len() > 0 ==> identity_lane(
            Some(&ConversationIdentity::Agent(session, agent)),
        ) == Some(session@ + seq!['\0'] + agent@),
        session@.len() > 0 && agent@.len() == 0 ==> identity_lane(
            Some(&ConversationIdentity::Agent(session, agent)),
        ) == Some(session@),
{
    assert(session@ + seq!['\0'] + agent@ =~= session@.push('\0') + agent@);
}

}
