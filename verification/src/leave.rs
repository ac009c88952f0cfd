//! Outbound rejection of an invite to a room that this server is not in: held only as a stub,
//! without any room state.
//!
//! The inviting server is asked for a template, which is completed and sent back, as best can be
//! done; then the leave is recorded over the invite, or, where that failed, the invite is dropped.
//! The user stops seeing the invite either way. Asking and storing are done outside; what came of
//! each is handed to [`Rejection::step`].

use vstd::prelude::*;

use crate::event::Event;
use crate::get_missing_events::ids_in;
use crate::ids::{server_is_after_the_first_colon, server_of, server_part, valid_user_id};
use crate::join::{complete_membership_template, MembershipDraft};
use crate::json::{Json, JsonModel};
use crate::response::{error_response, Response, INTERNAL_SERVER_ERROR, OK};
use crate::text::texts;

verus! {

/// What a rejection is doing.
#[derive(Debug, PartialEq, Eq)]
pub enum RejectPhase {
    /// Asking the inviting server for a template.
    AskTemplate,
    /// Building the event and sending it back.
    SendLeave { draft: MembershipDraft, room_version: String },
    /// Recording the leave over the invite, under the version that the invite was kept under.
    Record { leave: Event, room_version: String },
    /// Dropping the invite.
    Drop,
    /// Answered.
    Answered { response: Response },
}

/// What a rejection needs done.
#[derive(Debug, PartialEq, Eq)]
pub enum RejectAction<'a> {
    /// Ask this server for the template of a leave.
    AskTemplate { server: &'a String, room_id: &'a String, user_id: &'a String },
    /// Build the event under this version and send it to this server.
    SendLeave { server: &'a String, draft: &'a MembershipDraft, room_version: &'a String },
    /// Record the leave over the invite, under this version.
    Record {
        room_id: &'a String,
        user_id: &'a String,
        leave: &'a Event,
        room_version: &'a String,
    },
    /// Drop the invite.
    Drop { room_id: &'a String, user_id: &'a String },
    /// Answer.
    Answer(&'a Response),
}

/// What came of it.
#[derive(Debug, PartialEq, Eq)]
pub enum RejectReport {
    /// The template, the room's version as the inviting server states it, and whether this server
    /// speaks it.
    Template { template: Json, room_version: String, spoken: bool },
    /// The leave, which the inviting server took.
    Accepted(Event),
    /// The other server failed, or the event could not be built.
    Failed,
    /// Done.
    Done,
    /// The store failed.
    Fault(String),
}

/// A rejection.
#[derive(Debug, PartialEq, Eq)]
pub struct Rejection {
    pub room_id: String,
    pub user_id: String,
    pub display_name: String,
    /// The inviting server, which is asked.
    pub server: String,
    /// The version of the room that the invite was kept under.
    pub invite_version: String,
    pub phase: RejectPhase,
}

impl Rejection {
    /// Whether two states are of the same rejection.
    pub open spec fn same_rejection(self, other: Rejection) -> bool {
        &&& self.room_id == other.room_id
        &&& self.user_id == other.user_id
        &&& self.display_name == other.display_name
        &&& self.server == other.server
        &&& self.invite_version == other.invite_version
    }

    /// How a report takes a rejection on.
    pub open spec fn follows(before: Rejection, report: RejectReport, after: Rejection) -> bool {
        &&& before.same_rejection(after)
        &&& match (before.phase, report) {
            (RejectPhase::AskTemplate, RejectReport::Template {
                template,
                room_version,
                spoken,
            }) => match (
                ids_in(template.model().get("prev_events"@)),
                ids_in(template.model().get("prev_state_events"@)),
            ) {
                (Some(prev_events), Some(prev_state_events)) if spoken => {
                    &&& after.phase matches RejectPhase::SendLeave { draft, room_version: named }
                    &&& named == room_version
                    &&& draft.room_id@ == before.room_id@
                    &&& draft.user_id@ == before.user_id@
                    &&& draft.membership@ == "leave"@
                    &&& draft.display_name@ == before.display_name@
                    &&& texts(draft.prev_events@) == prev_events
                    &&& texts(draft.prev_state_events@) == prev_state_events
                },
                _ => after.phase is Drop,
            },
            (RejectPhase::AskTemplate, RejectReport::Failed) => after.phase is Drop,
            (RejectPhase::SendLeave { .. }, RejectReport::Failed) => after.phase is Drop,
            (RejectPhase::SendLeave { .. }, RejectReport::Accepted(accepted)) => {
                &&& after.phase matches RejectPhase::Record { leave, room_version }
                &&& leave == accepted
                &&& room_version@ == before.invite_version@
            },
            (RejectPhase::Record { .. } | RejectPhase::Drop, RejectReport::Done) => after.phase matches RejectPhase::Answered {
                response,
            } && response.is(OK, JsonModel::Object(Seq::empty())),
            (RejectPhase::Record { .. } | RejectPhase::Drop, RejectReport::Fault(error)) => after.phase matches RejectPhase::Answered {
                response,
            } && response.is_error(INTERNAL_SERVER_ERROR, "M_UNKNOWN"@, error@),
            _ => before == after,
        }
    }

    /// Begins the rejection of an invite that was kept under a version of its room. The server of
    /// whoever sent the invite is the one that is asked.
    pub fn begin(
        room_id: String,
        user_id: String,
        display_name: String,
        invite: &Event,
        invite_version: String,
    ) -> (rejection: Rejection)
        requires
            valid_user_id(invite@.sender),
        ensures
            rejection.room_id == room_id,
            rejection.user_id == user_id,
            rejection.display_name == display_name,
            rejection.server@ == server_part(invite@.sender),
            rejection.invite_version == invite_version,
            rejection.phase is AskTemplate,
    {
        let server = server_of(invite.sender.as_str());
        let phase = RejectPhase::AskTemplate;
        Rejection { room_id, user_id, display_name, server, invite_version, phase }
    }

    /// What the rejection needs done now. Both halves of the handshake go to the inviting server.
    pub fn action(&self) -> (action: RejectAction<'_>)
        ensures
            action == match self.phase {
                RejectPhase::AskTemplate => RejectAction::AskTemplate {
                    server: &self.server,
                    room_id: &self.room_id,
                    user_id: &self.user_id,
                },
                RejectPhase::SendLeave { draft, room_version } => RejectAction::SendLeave {
                    server: &self.server,
                    draft: &draft,
                    room_version: &room_version,
                },
                RejectPhase::Record { leave, room_version } => RejectAction::Record {
                    room_id: &self.room_id,
                    user_id: &self.user_id,
                    leave: &leave,
                    room_version: &room_version,
                },
                RejectPhase::Drop => RejectAction::Drop {
                    room_id: &self.room_id,
                    user_id: &self.user_id,
                },
                RejectPhase::Answered { response } => RejectAction::Answer(&response),
            },
    {
        let Rejection { room_id, user_id, server, phase, .. } = self;
        match phase {
            RejectPhase::AskTemplate => RejectAction::AskTemplate { server, room_id, user_id },
            RejectPhase::SendLeave { draft, room_version } => RejectAction::SendLeave {
                server,
                draft,
                room_version,
            },
            RejectPhase::Record { leave, room_version } => RejectAction::Record {
                room_id,
                user_id,
                leave,
                room_version,
            },
            RejectPhase::Drop => RejectAction::Drop { room_id, user_id },
            RejectPhase::Answered { response } => RejectAction::Answer(response),
        }
    }

    fn turn(self, phase: RejectPhase) -> (after: Rejection)
        ensures
            self.same_rejection(after),
            after.phase == phase,
    {
        Rejection {
            room_id: self.room_id,
            user_id: self.user_id,
            display_name: self.display_name,
            server: self.server,
            invite_version: self.invite_version,
            phase,
        }
    }

    /// Takes the rejection on from a report. A report that answers nothing that was asked changes
    /// nothing.
    pub fn step(self, report: RejectReport) -> (after: Rejection)
        ensures
            Rejection::follows(self, report, after),
    {
        let Rejection { room_id, user_id, display_name, server, invite_version, phase } = self;
        // The rejection without its phase; the phase is set below.
        let rest = Rejection {
            room_id,
            user_id,
            display_name,
            server,
            invite_version,
            phase: RejectPhase::Drop,
        };
        match (phase, report) {
            (RejectPhase::AskTemplate, RejectReport::Template {
                template,
                room_version,
                spoken,
            }) => {
                if !spoken {
                    return rest.turn(RejectPhase::Drop);
                }
                match complete_membership_template(
                    &template,
                    rest.room_id.as_str(),
                    rest.user_id.as_str(),
                    "leave",
                    rest.display_name.as_str(),
                ) {
                    Some(draft) => rest.turn(RejectPhase::SendLeave { draft, room_version }),
                    None => rest.turn(RejectPhase::Drop),
                }
            },
            (RejectPhase::AskTemplate, RejectReport::Failed) => rest.turn(RejectPhase::Drop),
            (RejectPhase::SendLeave { .. }, RejectReport::Failed) => rest.turn(RejectPhase::Drop),
            (RejectPhase::SendLeave { .. }, RejectReport::Accepted(leave)) => {
                let room_version = rest.invite_version.clone();
                rest.turn(RejectPhase::Record { leave, room_version })
            },
            (RejectPhase::Record { .. }, RejectReport::Done) => rest.turn(
                RejectPhase::Answered { response: Response::ok(Json::empty_object()) },
            ),
            (RejectPhase::Drop, RejectReport::Done) => rest.turn(
                RejectPhase::Answered { response: Response::ok(Json::empty_object()) },
            ),
            (RejectPhase::Record { .. }, RejectReport::Fault(error)) => rest.turn(
                RejectPhase::Answered {
                    response: error_response(INTERNAL_SERVER_ERROR, "M_UNKNOWN", error.as_str()),
                },
            ),
            (RejectPhase::Drop, RejectReport::Fault(error)) => rest.turn(
                RejectPhase::Answered {
                    response: error_response(INTERNAL_SERVER_ERROR, "M_UNKNOWN", error.as_str()),
                },
            ),
            (phase, _) => rest.turn(phase),
        }
    }
}

/// The user is rid of the invite whatever the other server does: no failure of it is answered with
/// an error; only one of this server's own store is.
pub proof fn fails_only_with_the_store(before: Rejection, report: RejectReport, after: Rejection)
    requires
        Rejection::follows(before, report, after),
        !(before.phase is Answered),
        after.phase matches RejectPhase::Answered { response } && response.status != OK,
    ensures
        report is Fault,
        before.phase is Record || before.phase is Drop,
{
}

/// Whether reports take a rejection through some states, from its beginning on.
pub open spec fn is_run(states: Seq<Rejection>, reports: Seq<RejectReport>) -> bool {
    &&& states.len() == reports.len() + 1
    &&& states[0].phase is AskTemplate
    &&& forall|i: int|
        0 <= i < reports.len() ==> Rejection::follows(
            states[i],
            #[trigger] reports[i],
            states[i + 1],
        )
}

/// Whether the inviting server took the leave that it was sent.
pub open spec fn taken(state: Rejection, report: RejectReport, leave: Event) -> bool {
    state.phase is SendLeave && report == RejectReport::Accepted(leave)
}

/// Whether a local write was made, and went well or failed.
pub open spec fn is_written(state: Rejection, report: RejectReport) -> bool {
    &&& state.phase is Record || state.phase is Drop
    &&& report is Done || report is Fault
}

/// What is written and what is answered for it: where the inviting server took the leave, it is
/// recorded under the version of the invite; else the invite is dropped. The user is answered that
/// all is well just where the write went well.
pub open spec fn is_outcome(
    states: Seq<Rejection>,
    reports: Seq<RejectReport>,
    at: int,
    response: Response,
) -> bool {
    &&& match states[at].phase {
        RejectPhase::Record { leave, room_version } => {
            &&& room_version@ == states[0].invite_version@
            &&& exists|i: int| 0 <= i < at && #[trigger] taken(states[i], reports[i], leave)
        },
        _ => forall|i: int, leave: Event|
            0 <= i < at ==> !#[trigger] taken(states[i], reports[i], leave),
    }
    &&& match reports[at] {
        RejectReport::Fault(error) => response.is_error(
            INTERNAL_SERVER_ERROR,
            "M_UNKNOWN"@,
            error@,
        ),
        _ => response.is(OK, JsonModel::Object(Seq::empty())),
    }
}

/// What holds of a run at each of its states.
spec fn holds_at(states: Seq<Rejection>, reports: Seq<RejectReport>, at: int) -> bool {
    &&& states[0].same_rejection(states[at])
    &&& match states[at].phase {
        RejectPhase::Record { leave, room_version } => {
            &&& room_version@ == states[0].invite_version@
            &&& exists|i: int| 0 <= i < at && #[trigger] taken(states[i], reports[i], leave)
        },
        RejectPhase::Answered { .. } => true,
        _ => forall|i: int, leave: Event|
            0 <= i < at ==> !#[trigger] taken(states[i], reports[i], leave),
    }
    &&& match states[at].phase {
        RejectPhase::Answered { response } => exists|w: int|
            0 <= w < at && #[trigger] is_written(states[w], reports[w]) && is_outcome(
                states,
                reports,
                w,
                response,
            ) && forall|i: int|
                0 <= i < at && i != w ==> !#[trigger] is_written(states[i], reports[i]),
        _ => forall|i: int| 0 <= i < at ==> !#[trigger] is_written(states[i], reports[i]),
    }
}

proof fn holds_throughout(states: Seq<Rejection>, reports: Seq<RejectReport>, at: int)
    requires
        is_run(states, reports),
        0 <= at < states.len(),
    ensures
        holds_at(states, reports, at),
    decreases at,
{
    if at > 0 {
        holds_throughout(states, reports, at - 1);
        assert(Rejection::follows(states[at - 1], reports[at - 1], states[at - 1 + 1]));
        match (states[at - 1].phase, states[at].phase) {
            (RejectPhase::SendLeave { .. }, RejectPhase::Record { leave, .. }) => {
                assert(taken(states[at - 1], reports[at - 1], leave));
            },
            (
                RejectPhase::Record { .. } | RejectPhase::Drop,
                RejectPhase::Answered { response },
            ) => {
                assert(is_written(states[at - 1], reports[at - 1]));
                assert(is_outcome(states, reports, at - 1, response));
            },
            _ => {},
        }
    }
}

/// A rejection writes to the local store exactly once. It records the leave, under the version that
/// the invite was kept under, where the inviting server took it, and drops the invite where that
/// failed, however it failed. The user is answered with success just where that write went well.
pub proof fn written_once(states: Seq<Rejection>, reports: Seq<RejectReport>)
    requires
        is_run(states, reports),
        states.last().phase is Answered,
    ensures
        exists|w: int|
            0 <= w < reports.len() && #[trigger] is_written(states[w], reports[w]) && is_outcome(
                states,
                reports,
                w,
                states.last().phase->response,
            ) && forall|i: int|
                0 <= i < reports.len() && i != w ==> !#[trigger] is_written(states[i], reports[i]),
{
    holds_throughout(states, reports, states.len() - 1);
}

/// A step of a rejection does what the law of its machine says.
pub proof fn rejection_steps_by_the_law(before: Rejection, report: RejectReport, after: Rejection)
    requires
        call_ensures(Rejection::step, (before, report), after),
    ensures
        Rejection::follows(before, report, after),
{
}

/// The inviting server is told wherever it can be: a template of a version that is spoken here, with
/// its parents, is completed as the user's own leave and sent; the leave that the server takes is
/// recorded under the version that the invite was kept under. Anything else drops the invite.
pub proof fn inviting_server_is_told(before: Rejection, report: RejectReport, after: Rejection)
    requires
        Rejection::follows(before, report, after),
    ensures
        before.phase is AskTemplate && report is Template ==> {
            let good = report->Template_spoken && ids_in(
                report->Template_template.model().get("prev_events"@),
            ) is Some && ids_in(report->Template_template.model().get("prev_state_events"@)) is Some;
            &&& good ==> (after.phase matches RejectPhase::SendLeave { draft, room_version }
                && room_version == report->Template_room_version && draft.room_id@
                == before.room_id@ && draft.user_id@ == before.user_id@ && draft.membership@
                == "leave"@ && draft.display_name@ == before.display_name@ && ids_in(
                report->Template_template.model().get("prev_events"@),
            ) == Some(texts(draft.prev_events@)) && ids_in(
                report->Template_template.model().get("prev_state_events"@),
            ) == Some(texts(draft.prev_state_events@)))
            &&& !good ==> after.phase is Drop
        },
        before.phase is AskTemplate && report is Failed ==> after.phase is Drop,
        before.phase is SendLeave && report is Failed ==> after.phase is Drop,
        before.phase is SendLeave && report is Accepted ==> (
        after.phase matches RejectPhase::Record { leave, room_version } && leave
            == report->Accepted_0 && room_version@ == before.invite_version@),
        (before.phase is Record || before.phase is Drop) && report is Done ==> (
        after.phase matches RejectPhase::Answered { response } && response.status == 200),
        (before.phase is Record || before.phase is Drop) && report is Fault ==> (
        after.phase matches RejectPhase::Answered { response } && response.status == 500),
        after.server == before.server && after.room_id == before.room_id && after.user_id
            == before.user_id,
        after.display_name == before.display_name && after.invite_version == before.invite_version,
{
}

/// A rejection begins with the server of whoever sent the invite, for the user and the room of the
/// invite.
pub proof fn rejection_begins_with_the_inviter(
    room_id: String,
    user_id: String,
    display_name: String,
    invite: Event,
    invite_version: String,
    local: Seq<char>,
    server: Seq<char>,
    rejection: Rejection,
)
    requires
        call_ensures(
            Rejection::begin,
            (room_id, user_id, display_name, &invite, invite_version),
            rejection,
        ),
        invite.sender@ == local.push(':') + server,
        !local.contains(':'),
    ensures
        rejection.phase is AskTemplate,
        rejection.server@ == server,
        rejection.room_id == room_id && rejection.user_id == user_id,
        rejection.display_name == display_name && rejection.invite_version == invite_version,
{
    server_is_after_the_first_colon(local, server);
}

} // verus!
