//! What is said when work outside the library goes wrong.
use crate::actions;
use crate::actions::{log, no_actions, say, Action, ActionView, LogLevel};
use crate::text::concat2;
use vstd::prelude::*;

verus! {

/// Work outside the library.
#[derive(Debug, Clone, Copy, PartialEq, Eq, Structural)]
pub enum Work {
    DeleteProfile,
    ChooseWinner,
    SaveRankedOrder,
    OpenClipboard,
    CopyText,
    SaveClearedCaches,
    SaveSyncedMods,
    EncodeRanking,
    StoreRanking,
    ForgetRanking,
    RemoveModFiles,
}

/// What is said of work that failed, before the reason.
pub open spec fn failed_words(work: Work) -> Seq<char> {
    match work {
        Work::DeleteProfile => "Profile delete failed: "@,
        Work::ChooseWinner => "Override failed: "@,
        Work::SaveRankedOrder => "Smart ranking save failed: "@,
        Work::OpenClipboard => "Clipboard unavailable: "@,
        Work::CopyText => "Clipboard copy failed: "@,
        Work::SaveClearedCaches => "System cache clear save failed: "@,
        Work::SaveSyncedMods => "Native mod sync save failed: "@,
        Work::EncodeRanking => "Smart rank cache serialize failed: "@,
        Work::StoreRanking => "Smart rank cache write failed: "@,
        Work::ForgetRanking => "Smart rank cache delete failed: "@,
        Work::RemoveModFiles => "Remove mod files skipped: "@,
    }
}

/// What is said of work that failed. Where the user asked for it, the status says so too;
/// the loss of what they asked for is an error.
pub open spec fn failed_says(work: Work, reason: Seq<char>) -> Seq<ActionView> {
    let line = failed_words(work) + reason;
    match work {
        Work::DeleteProfile | Work::ChooseWinner | Work::SaveRankedOrder => seq![
            ActionView::Status(line),
            ActionView::Log(LogLevel::Error, line),
        ],
        Work::OpenClipboard | Work::CopyText => seq![
            ActionView::Status(line),
            ActionView::Log(LogLevel::Warn, line),
        ],
        _ => seq![ActionView::Log(LogLevel::Warn, line)],
    }
}

pub fn say_failed(work: Work, reason: &str) -> (out: Vec<Action>)
    ensures
        actions::action_views(out@) == failed_says(work, reason@),
{
    let words = match work {
        Work::DeleteProfile => "Profile delete failed: ",
        Work::ChooseWinner => "Override failed: ",
        Work::SaveRankedOrder => "Smart ranking save failed: ",
        Work::OpenClipboard => "Clipboard unavailable: ",
        Work::CopyText => "Clipboard copy failed: ",
        Work::SaveClearedCaches => "System cache clear save failed: ",
        Work::SaveSyncedMods => "Native mod sync save failed: ",
        Work::EncodeRanking => "Smart rank cache serialize failed: ",
        Work::StoreRanking => "Smart rank cache write failed: ",
        Work::ForgetRanking => "Smart rank cache delete failed: ",
        Work::RemoveModFiles => "Remove mod files skipped: ",
    };
    let line = concat2(words, reason);
    let asked = matches!(work, Work::DeleteProfile | Work::ChooseWinner | Work::SaveRankedOrder);
    let mut out = no_actions();
    if asked || matches!(work, Work::OpenClipboard | Work::CopyText) {
        say(&mut out, line.as_str());
    }
    log(
        &mut out,
        if asked {
            LogLevel::Error
        } else {
            LogLevel::Warn
        },
        line.as_str(),
    );
    assert(actions::action_views(out@) =~= failed_says(work, reason@));
    out
}

} // verus!
