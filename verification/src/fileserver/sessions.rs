//! How a connection is bound to a session, and what its session lets it see.

use crate::fileserver::paths::{
    in_scope, law_relative_paths_lead_downwards, normalize_root, opt_text, relative_form, root_form,
    root_relative_path, PathMap, ShortAliasPolicy,
};
use vstd::prelude::*;

verus! {

/// How many connections may wait for their first message at a time.
pub const MAX_UNAUTHENTICATED_HANDSHAKES: usize = 64;

/// How many requests may be in flight at a time.
pub const MAX_DATA_PLANE_IN_FLIGHT_REQUESTS: usize = 256;

/// How long a connection may take to send its first message, in nanoseconds.
pub const HANDSHAKE_TIMEOUT: u64 = 10_000_000_000;

/// The first message of a connection.
pub enum FirstMessage {
    /// It asks for a session; what the check of its token says.
    Hello { token: Result<(), String>, session_id: String, root: String },
    /// It asks for a session, and cannot be read.
    Malformed,
    /// It asks for something else.
    Other,
}

/// What a connection begins with.
pub enum Opening {
    Message(FirstMessage),
    /// The peer left.
    Closed,
    /// Nothing came in time.
    TimedOut,
    /// Reading failed.
    Failed,
}

/// The session of a connection.
#[derive(Debug, PartialEq, Eq)]
pub enum SessionChoice {
    /// The one with this identifier.
    Bound(String),
    /// One of its own, below the root that the worker declares.
    Legacy(Option<String>),
}

/// The session without the strings that name it.
pub enum ChoiceModel {
    Bound(Seq<char>),
    Legacy(Option<Seq<char>>),
}

impl View for SessionChoice {
    type V = ChoiceModel;

    open spec fn view(&self) -> ChoiceModel {
        match *self {
            SessionChoice::Bound(id) => ChoiceModel::Bound(id@),
            SessionChoice::Legacy(root) => ChoiceModel::Legacy(opt_text(root)),
        }
    }
}

/// Which session a connection gets: a nonempty identifier has to be a known one,
/// and an empty one is accepted only where sessions without an identifier are.
pub open spec fn chosen(
    legacy_enabled: bool,
    session_id: Seq<char>,
    known: bool,
    worker_root: Option<Seq<char>>,
) -> Result<ChoiceModel, Seq<char>> {
    if session_id.len() == 0 {
        if legacy_enabled {
            Ok(ChoiceModel::Legacy(worker_root))
        } else {
            Err("session id required"@)
        }
    } else if known {
        Ok(ChoiceModel::Bound(session_id))
    } else {
        Err("unknown or expired session id"@)
    }
}

/// Decides which session a connection gets; `known` tells whether there is a
/// session with the identifier.
pub fn resolve_session(
    legacy_enabled: bool,
    session_id: String,
    known: bool,
    worker_root: Option<String>,
) -> (r: Result<SessionChoice, String>)
    ensures
        match chosen(legacy_enabled, session_id@, known, opt_text(worker_root)) {
            Ok(c) => r matches Ok(s) && s@ == c,
            Err(reason) => r matches Err(t) && t@ == reason,
        },
{
    if session_id.as_str().is_empty() {
        if legacy_enabled {
            Ok(SessionChoice::Legacy(worker_root))
        } else {
            Err("session id required".to_owned())
        }
    } else if known {
        Ok(SessionChoice::Bound(session_id))
    } else {
        Err("unknown or expired session id".to_owned())
    }
}

/// What becomes of a connection.
pub enum HandshakeStep {
    /// Close it without an answer.
    Close,
    /// Close it with a failure.
    Fail,
    /// Answer no, with the reason, and close it.
    Reject(String),
    /// Answer yes.
    Accept(SessionChoice),
}

/// A step without the strings.
pub enum HandshakeModel {
    Close,
    Fail,
    Reject(Seq<char>),
    Accept(ChoiceModel),
}

impl View for HandshakeStep {
    type V = HandshakeModel;

    open spec fn view(&self) -> HandshakeModel {
        match *self {
            HandshakeStep::Close => HandshakeModel::Close,
            HandshakeStep::Fail => HandshakeModel::Fail,
            HandshakeStep::Reject(reason) => HandshakeModel::Reject(reason@),
            HandshakeStep::Accept(c) => HandshakeModel::Accept(c@),
        }
    }
}

/// What becomes of a connection that begins so.
pub open spec fn handshaken(o: Opening, legacy_enabled: bool, known: bool) -> HandshakeModel {
    match o {
        Opening::Closed => HandshakeModel::Close,
        Opening::TimedOut => HandshakeModel::Close,
        Opening::Failed => HandshakeModel::Fail,
        Opening::Message(FirstMessage::Malformed) => HandshakeModel::Reject("malformed handshake"@),
        Opening::Message(FirstMessage::Other) => HandshakeModel::Reject(
            "session handshake required"@,
        ),
        Opening::Message(FirstMessage::Hello { token, session_id, root }) => match token {
            Err(reason) => HandshakeModel::Reject(reason@),
            Ok(_) => match chosen(legacy_enabled, session_id@, known, root_form(root@)) {
                Ok(c) => HandshakeModel::Accept(c),
                Err(reason) => HandshakeModel::Reject(reason),
            },
        },
    }
}

/// Decides what becomes of a connection; `known` tells whether there is a session
/// with the identifier of the message.
pub fn handshake(opening: Opening, legacy_enabled: bool, known: bool) -> (r: HandshakeStep)
    ensures
        r@ == handshaken(opening, legacy_enabled, known),
{
    match opening {
        Opening::Closed => HandshakeStep::Close,
        Opening::TimedOut => HandshakeStep::Close,
        Opening::Failed => HandshakeStep::Fail,
        Opening::Message(message) => match message {
            FirstMessage::Malformed => HandshakeStep::Reject("malformed handshake".to_owned()),
            FirstMessage::Other => HandshakeStep::Reject("session handshake required".to_owned()),
            FirstMessage::Hello { token, session_id, root } => match token {
                Err(reason) => HandshakeStep::Reject(reason),
                Ok(_) => {
                    let worker_root = normalize_root(root.as_str());
                    match resolve_session(legacy_enabled, session_id, known, worker_root) {
                        Ok(choice) => HandshakeStep::Accept(choice),
                        Err(reason) => HandshakeStep::Reject(reason),
                    }
                },
            },
        },
    }
}

/// A connection whose token is refused, or that asks for a session that is not
/// known, is never accepted: it does not fall back to a session of its own.
pub proof fn law_unknown_sessions_are_refused(o: Opening, legacy_enabled: bool, known: bool)
    requires
        o matches Opening::Message(FirstMessage::Hello { token, session_id, root }) && (token is Err
            || (session_id@.len() > 0 && !known)),
    ensures
        handshaken(o, legacy_enabled, known) is Reject,
{
}

/// The root that a worker declares counts only where sessions without an
/// identifier are accepted: a known session keeps its own.
pub proof fn law_declared_roots_need_legacy_sessions(
    o: Opening,
    legacy_enabled: bool,
    known: bool,
)
    requires
        handshaken(o, legacy_enabled, known) matches HandshakeModel::Accept(c) && c is Legacy,
    ensures
        legacy_enabled,
{
}

/// What a session may see.
pub struct SessionScope {
    /// Its root, in the form of [`normalize_root`]; `None` for no bounds.
    pub root: Option<String>,
    /// Whether its root was opened as a directory.
    pub has_root_dir: bool,
    /// Whether it needs such a directory and has none.
    pub requires_contained_root: bool,
}

/// How a requested path is looked at.
pub enum Access {
    /// Not at all: it does not exist for this session.
    Absent,
    /// Below the directory of the session, by this relative path.
    Contained(String),
    /// By this path.
    Direct(String),
}

/// An access without the strings.
pub enum AccessModel {
    Absent,
    Contained(Seq<char>),
    Direct(Seq<char>),
}

impl View for Access {
    type V = AccessModel;

    open spec fn view(&self) -> AccessModel {
        match *self {
            Access::Absent => AccessModel::Absent,
            Access::Contained(rel) => AccessModel::Contained(rel@),
            Access::Direct(path) => AccessModel::Direct(path@),
        }
    }
}

/// How a path is looked at for a session.
pub open spec fn access_for(scope: SessionScope, map: PathMap, requested: Seq<char>) -> AccessModel {
    if !in_scope(requested, opt_text(scope.root)) || scope.requires_contained_root {
        AccessModel::Absent
    } else if map is Identity && scope.has_root_dir && scope.root is Some {
        AccessModel::Contained(relative_form(requested, scope.root->0@)->0)
    } else {
        AccessModel::Direct(map.target(requested))
    }
}

/// Decides how a path is looked at for a session.
pub fn access(scope: &SessionScope, map: &PathMap, requested: &str) -> (r: Access)
    ensures
        r@ == access_for(*scope, *map, requested@),
{
    if scope.requires_contained_root {
        return Access::Absent;
    }
    match &scope.root {
        Some(root) => match root_relative_path(requested, root.as_str()) {
            None => Access::Absent,
            Some(rel) => {
                if scope.has_root_dir {
                    if let PathMap::Identity = map {
                        return Access::Contained(rel);
                    }
                }
                Access::Direct(map.resolve(requested))
            },
        },
        None => Access::Direct(map.resolve(requested)),
    }
}

/// A path outside the root of a session does not exist for it.
pub proof fn law_out_of_scope_does_not_exist(
    scope: SessionScope,
    map: PathMap,
    requested: Seq<char>,
)
    requires
        !in_scope(requested, opt_text(scope.root)),
    ensures
        access_for(scope, map, requested) is Absent,
{
}

/// For a session that needs the directory of its root and has none, nothing
/// exists.
pub proof fn law_without_its_root_nothing_exists(
    scope: SessionScope,
    map: PathMap,
    requested: Seq<char>,
)
    requires
        scope.requires_contained_root,
    ensures
        access_for(scope, map, requested) is Absent,
{
}

/// A path below the directory of a session leads only downwards from it.
pub proof fn law_contained_paths_stay_inside(
    scope: SessionScope,
    map: PathMap,
    requested: Seq<char>,
)
    requires
        access_for(scope, map, requested) is Contained,
    ensures
        ({
            let rel = access_for(scope, map, requested)->Contained_0;
            ||| rel == "."@
            ||| rel.len() == 0
            ||| forall|i: int|
                0 <= i < crate::text::split(rel, '\\').len() ==> crate::fileserver::paths::is_plain(
                    #[trigger] crate::text::split(rel, '\\')[i],
                    ShortAliasPolicy::Reject,
                )
        }),
{
    law_relative_paths_lead_downwards(requested, scope.root->0@);
}

/// What becomes of a first message: with a token that is accepted, the session that it
/// names is bound where it is known; without a name it gets one of its own, below the root
/// that it declares, only where that is allowed; every other is refused.
pub proof fn law_known_sessions_are_bound(
    token: Result<(), String>,
    session_id: String,
    root: String,
    legacy_enabled: bool,
    known: bool,
)
    ensures
        ({
            let o = Opening::Message(FirstMessage::Hello { token, session_id, root });
            let h = handshaken(o, legacy_enabled, known);
            &&& token is Ok && session_id@.len() > 0 && known ==> h == HandshakeModel::Accept(
                ChoiceModel::Bound(session_id@),
            )
            &&& token is Ok && session_id@.len() == 0 && legacy_enabled ==> h
                == HandshakeModel::Accept(ChoiceModel::Legacy(root_form(root@)))
            &&& h is Accept ==> token is Ok && (session_id@.len() > 0 ==> known) && (
            session_id@.len() == 0 ==> legacy_enabled)
            &&& token matches Err(reason) ==> h == HandshakeModel::Reject(reason@)
            &&& h is Accept || h is Reject
        }),
        handshaken(Opening::Closed, legacy_enabled, known) is Close,
        handshaken(Opening::TimedOut, legacy_enabled, known) is Close,
        handshaken(Opening::Failed, legacy_enabled, known) is Fail,
        handshaken(Opening::Message(FirstMessage::Malformed), legacy_enabled, known) is Reject,
        handshaken(Opening::Message(FirstMessage::Other), legacy_enabled, known) is Reject,
{
}

/// A path in the scope of a session exists for it: below the directory of its root by its
/// relative path, and without such a directory by the path itself, or where that is
/// remapped to.
pub proof fn law_in_scope_is_looked_at(scope: SessionScope, map: PathMap, requested: Seq<char>)
    requires
        !scope.requires_contained_root,
        scope.root matches Some(root) ==> relative_form(requested, root@) is Some,
    ensures
        scope.root matches Some(root) ==> {
            &&& map is Identity && scope.has_root_dir ==> access_for(scope, map, requested)
                == AccessModel::Contained(relative_form(requested, root@)->0)
            &&& map is Identity && !scope.has_root_dir ==> access_for(scope, map, requested)
                == AccessModel::Direct(requested)
        },
        scope.root is None && map is Identity ==> access_for(scope, map, requested)
            == AccessModel::Direct(requested),
        map is Remap ==> access_for(scope, map, requested) == AccessModel::Direct(
            map.target(requested),
        ),
{
}

} // verus!
