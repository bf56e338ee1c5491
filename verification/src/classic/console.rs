//! What the console prints of the events.

use vstd::prelude::*;

use crate::classic::share::AppEvent;
use crate::classic::share::AppEventView;
use crate::text;

verus! {

/// What is printed of an event. Messages and statuses are only printed on request.
pub open spec fn printed(event: AppEventView, verbose: bool) -> Option<Seq<char>> {
    match event {
        AppEventView::Log(message) => if verbose {
            Some("[LOG]: "@ + message)
        } else {
            None
        },
        AppEventView::TaskStatus { name, status } => if verbose {
            Some("["@ + name + "]: Status being change to "@ + status.shown())
        } else {
            None
        },
        AppEventView::TaskOutput { name, output, .. } => Some("["@ + name + "]: "@ + output),
        AppEventView::FileChanged { task_name, .. } => Some("["@ + task_name + "]: File changed"@),
        _ => None,
    }
}

/// The console.
pub struct Console {
    pub verbose: bool,
}

impl Console {
    /// A console that prints messages and statuses on request only.
    pub fn new(verbose: bool) -> (r: Self)
        ensures
            r.verbose == verbose,
    {
        Console { verbose }
    }

    /// What is printed of an event.
    pub fn line(&self, event: &AppEvent) -> (r: Option<String>)
        ensures
            text::opt_text(r) == printed(event@, self.verbose),
    {
        match event {
            AppEvent::Log(message) => if self.verbose {
                Some(text::concat("[LOG]: ", message.as_str()))
            } else {
                None
            },
            AppEvent::TaskStatus(task) => if self.verbose {
                let head = text::concat3("[", task.name.as_str(), "]: Status being change to ");
                Some(text::concat(head.as_str(), task.status.to_text()))
            } else {
                None
            },
            AppEvent::TaskOutput(e) => {
                let head = text::concat3("[", e.name.as_str(), "]: ");
                Some(text::concat(head.as_str(), e.output.as_str()))
            },
            AppEvent::FileChanged(e) => Some(
                text::concat3("[", e.task_name.as_str(), "]: File changed"),
            ),
            _ => None,
        }
    }

    /// Whether the console goes on listening after an event.
    pub fn wait(&self, event: &AppEvent) -> (r: bool)
        ensures
            r == !(event@ is Quit),
    {
        match event {
            AppEvent::Quit => false,
            _ => true,
        }
    }
}

} // verus!
