//! The guest daemon: where it listens and what it answers.
use crate::cli::GuestdCommand;
use crate::error::{error_text, AppError};
use crate::protocol::{GuestFrame, GuestResponse};
use vstd::prelude::*;

verus! {

/// Where the daemon listens.
#[derive(Debug)]
pub enum ListenTarget {
    Unix(String),
    Tcp(String),
}

/// The daemon listens where it is told to.
pub open spec fn listens(target: ListenTarget, config: GuestdCommand) -> bool {
    match config.listen_unix {
        Some(path) => target matches ListenTarget::Unix(found) && found@ == path@,
        None => target matches ListenTarget::Tcp(found) && found@ == config.listen@,
    }
}

/// The message is the last one about a request.
pub open spec fn is_reply(frame: GuestFrame, result: Result<GuestResponse, AppError>) -> bool {
    match result {
        Ok(response) => frame == GuestFrame::Response(response),
        Err(problem) => frame matches GuestFrame::Error(message) && message@ == error_text(
            problem,
        ),
    }
}

/// Where the daemon listens: on a Unix socket where one is given.
pub fn listen_target(config: &GuestdCommand) -> (target: ListenTarget)
    ensures
        match config.listen_unix {
            Some(path) => target matches ListenTarget::Unix(found) && found@ == path@,
            None => target matches ListenTarget::Tcp(found) && found@ == config.listen@,
        },
        listens(target, *config),
{
    match &config.listen_unix {
        Some(path) => ListenTarget::Unix(path.clone()),
        None => ListenTarget::Tcp(config.listen.clone()),
    }
}

/// The last message about a request: its answer, or what went wrong.
pub fn reply_frame(result: Result<GuestResponse, AppError>) -> (frame: GuestFrame)
    ensures
        match result {
            Ok(response) => frame == GuestFrame::Response(response),
            Err(problem) => frame matches GuestFrame::Error(message) && message@ == error_text(
                problem,
            ),
        },
        is_reply(frame, result),
{
    match result {
        Ok(response) => GuestFrame::Response(response),
        Err(problem) => GuestFrame::Error(problem.to_text()),
    }
}

/// What the daemon answers is what the command line gets: the answer comes back as
/// it is, and what went wrong comes back as its message.
pub proof fn replies_come_through(result: Result<GuestResponse, AppError>, frame: GuestFrame)
    requires
        match result {
            Ok(response) => frame == GuestFrame::Response(response),
            Err(problem) => frame matches GuestFrame::Error(message) && message@ == error_text(
                problem,
            ),
        },
    ensures
        match result {
            Ok(response) => crate::platform::macos_host::frame_step(frame)
                == crate::platform::macos_host::FrameStep::Done(response),
            Err(problem) => crate::platform::macos_host::frame_step(frame) matches
                crate::platform::macos_host::FrameStep::Fail(message) && message@ == error_text(
                problem,
            ),
        },
{
}

/// The daemon listens on the socket that it is given, and only where it is given none on
/// the address.
pub proof fn sockets_come_before_addresses(target: ListenTarget, config: GuestdCommand)
    requires
        listens(target, config),
    ensures
        target is Unix <==> config.listen_unix is Some,
        target matches ListenTarget::Unix(path) ==> config.listen_unix.deep_view() == Some(path@),
        target matches ListenTarget::Tcp(address) ==> address@ == config.listen@,
{
}

/// A request that is met is answered with its response, and one that fails with what is said
/// of the problem.
pub proof fn requests_are_answered(frame: GuestFrame, result: Result<GuestResponse, AppError>)
    requires
        is_reply(frame, result),
    ensures
        frame is Response <==> result is Ok,
        frame is Error <==> result is Err,
        frame matches GuestFrame::Response(response) ==> result == Ok::<GuestResponse, AppError>(
            response,
        ),
        frame matches GuestFrame::Error(message) ==> message@ == error_text(result->Err_0),
{
}

} // verus!
