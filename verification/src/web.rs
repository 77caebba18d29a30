//! The request orchestrator: what each route asks of the repository, and
//! what it answers once the repository has replied.
//!
//! A request is served in steps. [`begin`] and [`resume`] decide each
//! step from what is known so far; whoever drives them carries out the
//! commands against its store and hands the outcomes back. [`serve`]
//! drives them against the store of this library.

use crate::db::{
    create_feedback, create_prompt, feedback_rows, get_all_prompts, get_feedback_for_prompt,
    get_prompt_by_id, holds_random_id, prompt_rows, Feedback, FeedbackView, Prompt, PromptView,
    Store, StoreView,
};
use crate::link::{admin_path, detail_path, feedback_link, feedback_url, listing_path, prompt_path};
use crate::mint::{is_random_id, is_utc_stamp};
use crate::order::holds_key;
use vstd::prelude::*;
use vstd::string::StringExecFns;

verus! {

/// A request, by route, with what the route takes from it.
#[derive(Debug)]
pub enum Request {
    /// The root of the board.
    Root,
    /// The listing of all prompts.
    List,
    /// The empty form for a new prompt.
    NewForm,
    /// The filled-in form for a new prompt.
    NewSubmit { title: String, description: String },
    /// The detail view of a prompt, asked for through `host`.
    Detail { host: String, id: String },
    /// The empty form for feedback on a prompt.
    FeedbackForm { id: String },
    /// The filled-in form for feedback on a prompt.
    FeedbackSubmit { id: String, content: String },
}

/// A page to render, with the data it shows.
#[derive(Debug)]
pub enum Page {
    /// The listing of prompts; an empty one is a page like any other.
    PromptList { prompts: Vec<Prompt> },
    /// The form for a new prompt.
    NewPrompt,
    /// A prompt with the feedback given on it and its feedback link.
    PromptDetail { prompt: Prompt, feedback_list: Vec<Feedback>, feedback_url: String },
    /// The form for feedback on a prompt.
    FeedbackForm { prompt: Prompt },
    /// The thanks for feedback given.
    FeedbackThanks,
}

/// The answer to a request. None of them is a failure to whoever asked.
#[derive(Debug)]
pub enum Response {
    /// Go to this path instead.
    Redirect(String),
    /// Show this page.
    Render(Page),
    /// Show this plain message.
    Text(String),
}

/// What the orchestrator asks of the repository.
#[derive(Debug)]
pub enum Command {
    ListPrompts,
    GetPrompt { id: String },
    CreatePrompt { title: String, description: String },
    ListFeedback { prompt_id: String },
    CreateFeedback { prompt_id: String, content: String },
}

/// What the repository answered.
#[derive(Debug)]
pub enum Outcome {
    Prompts(Vec<Prompt>),
    Lookup(Option<Prompt>),
    PromptCreated(Prompt),
    FeedbackList(Vec<Feedback>),
    FeedbackCreated(Feedback),
    /// The repository failed, for whatever reason.
    Failed,
}

/// A request under way: what it waits for, and what it has to remember.
#[derive(Debug)]
pub enum Pending {
    /// The listing waits for the prompts.
    Listing,
    /// The new prompt waits to be created.
    Creating,
    /// The detail view waits for its prompt.
    DetailLookup { host: String, id: String },
    /// The detail view has its prompt and waits for the feedback on it.
    DetailFeedback { host: String, id: String, prompt: Prompt },
    /// The feedback form waits for its prompt.
    FormLookup,
    /// The submission waits to learn whether its prompt is there.
    SubmitLookup { id: String, content: String },
    /// The submission waits for its feedback to be recorded.
    Submitting,
}

/// The next step of a request: a command to carry out, or the answer.
#[derive(Debug)]
pub enum Step {
    Ask(Command, Pending),
    Done(Response),
}

/// The message shown in place of a prompt that is not there.
pub open spec fn not_found_text() -> Seq<char> {
    "Prompt not found"@
}

/// The message shown when feedback could not be recorded.
pub open spec fn submit_failed_text() -> Seq<char> {
    "Error submitting feedback"@
}

impl Response {
    /// This answer sends on to `path`.
    pub open spec fn redirects_to(self, path: Seq<char>) -> bool {
        self matches Response::Redirect(to) && to@ == path
    }

    /// This answer shows the plain message `text`.
    pub open spec fn says(self, text: Seq<char>) -> bool {
        self matches Response::Text(shown) && shown@ == text
    }
}

/// `step` is the first step of `request`.
pub open spec fn begins(request: Request, step: Step) -> bool {
    match request {
        Request::Root => step matches Step::Done(response) && response.redirects_to(listing_path()),
        Request::List => step matches Step::Ask(Command::ListPrompts, Pending::Listing),
        Request::NewForm => step matches Step::Done(Response::Render(Page::NewPrompt)),
        Request::NewSubmit { title, description } => {
            &&& step matches Step::Ask(
                Command::CreatePrompt { title: t, description: d },
                Pending::Creating,
            )
            &&& t@ == title@
            &&& d@ == description@
        },
        Request::Detail { host, id } => {
            &&& step matches Step::Ask(
                Command::GetPrompt { id: asked },
                Pending::DetailLookup { host: h, id: i },
            )
            &&& asked@ == id@
            &&& h@ == host@
            &&& i@ == id@
        },
        Request::FeedbackForm { id } => {
            &&& step matches Step::Ask(Command::GetPrompt { id: asked }, Pending::FormLookup)
            &&& asked@ == id@
        },
        Request::FeedbackSubmit { id, content } => {
            &&& step matches Step::Ask(
                Command::GetPrompt { id: asked },
                Pending::SubmitLookup { id: i, content: c },
            )
            &&& asked@ == id@
            &&& i@ == id@
            &&& c@ == content@
        },
    }
}

/// `step` is the step that follows when the request under way as
/// `pending` learns `outcome`. An outcome of the wrong kind counts as a
/// failure of the repository.
pub open spec fn resumes(pending: Pending, outcome: Outcome, step: Step) -> bool {
    match pending {
        Pending::Listing => {
            &&& step matches Step::Done(Response::Render(Page::PromptList { prompts }))
            &&& prompt_rows(prompts@) == match outcome {
                Outcome::Prompts(list) => prompt_rows(list@),
                _ => Seq::empty(),
            }
        },
        Pending::Creating => {
            &&& step matches Step::Done(response)
            &&& response.redirects_to(
                match outcome {
                    Outcome::PromptCreated(prompt) => detail_path(prompt@.id),
                    _ => listing_path(),
                },
            )
        },
        Pending::DetailLookup { host, id } => match outcome {
            Outcome::Lookup(Some(found)) => {
                &&& step matches Step::Ask(
                    Command::ListFeedback { prompt_id },
                    Pending::DetailFeedback { host: h, id: i, prompt },
                )
                &&& prompt_id@ == id@
                &&& h@ == host@
                &&& i@ == id@
                &&& prompt@ == found@
            },
            _ => step matches Step::Done(response) && response.says(not_found_text()),
        },
        Pending::DetailFeedback { host, id, prompt } => {
            &&& step matches Step::Done(
                Response::Render(Page::PromptDetail { prompt: shown, feedback_list, feedback_url }),
            )
            &&& shown@ == prompt@
            &&& feedback_url@ == feedback_link(host@, id@)
            &&& feedback_rows(feedback_list@) == match outcome {
                Outcome::FeedbackList(list) => feedback_rows(list@),
                _ => Seq::empty(),
            }
        },
        Pending::FormLookup => match outcome {
            Outcome::Lookup(Some(found)) => {
                &&& step matches Step::Done(Response::Render(Page::FeedbackForm { prompt }))
                &&& prompt@ == found@
            },
            _ => step matches Step::Done(response) && response.says(not_found_text()),
        },
        Pending::SubmitLookup { id, content } => match outcome {
            Outcome::Lookup(Some(_)) => {
                &&& step matches Step::Ask(
                    Command::CreateFeedback { prompt_id, content: c },
                    Pending::Submitting,
                )
                &&& prompt_id@ == id@
                &&& c@ == content@
            },
            _ => step matches Step::Done(response) && response.says(not_found_text()),
        },
        Pending::Submitting => match outcome {
            Outcome::FeedbackCreated(_) => step matches Step::Done(
                Response::Render(Page::FeedbackThanks),
            ),
            _ => step matches Step::Done(response) && response.says(submit_failed_text()),
        },
    }
}

/// The plain answer for a prompt that is not there.
fn not_found() -> (step: Step)
    ensures
        step matches Step::Done(response) && response.says(not_found_text()),
{
    Step::Done(Response::Text(String::from_str("Prompt not found")))
}

/// The first step of `request`.
pub fn begin(request: Request) -> (step: Step)
    ensures
        begins(request, step),
{
    match request {
        Request::Root => Step::Done(Response::Redirect(admin_path())),
        Request::List => Step::Ask(Command::ListPrompts, Pending::Listing),
        Request::NewForm => Step::Done(Response::Render(Page::NewPrompt)),
        Request::NewSubmit { title, description } => Step::Ask(
            Command::CreatePrompt { title, description },
            Pending::Creating,
        ),
        Request::Detail { host, id } => Step::Ask(
            Command::GetPrompt { id: id.clone() },
            Pending::DetailLookup { host, id },
        ),
        Request::FeedbackForm { id } => Step::Ask(Command::GetPrompt { id }, Pending::FormLookup),
        Request::FeedbackSubmit { id, content } => Step::Ask(
            Command::GetPrompt { id: id.clone() },
            Pending::SubmitLookup { id, content },
        ),
    }
}

/// The step that follows when the request under way as `pending` learns
/// `outcome`.
pub fn resume(pending: Pending, outcome: Outcome) -> (step: Step)
    ensures
        resumes(pending, outcome, step),
{
    match pending {
        Pending::Listing => {
            let prompts = match outcome {
                Outcome::Prompts(list) => list,
                _ => Vec::new(),
            };
            assert(prompts.len() == 0 ==> prompt_rows(prompts@) =~= Seq::empty());
            Step::Done(Response::Render(Page::PromptList { prompts }))
        },
        Pending::Creating => match outcome {
            Outcome::PromptCreated(prompt) => Step::Done(
                Response::Redirect(prompt_path(prompt.id.as_str())),
            ),
            _ => Step::Done(Response::Redirect(admin_path())),
        },
        Pending::DetailLookup { host, id } => match outcome {
            Outcome::Lookup(Some(prompt)) => Step::Ask(
                Command::ListFeedback { prompt_id: id.clone() },
                Pending::DetailFeedback { host, id, prompt },
            ),
            _ => not_found(),
        },
        Pending::DetailFeedback { host, id, prompt } => {
            let feedback_list = match outcome {
                Outcome::FeedbackList(list) => list,
                _ => Vec::new(),
            };
            assert(feedback_list.len() == 0 ==> feedback_rows(feedback_list@) =~= Seq::empty());
            let feedback_url = feedback_url(host.as_str(), id.as_str());
            Step::Done(Response::Render(Page::PromptDetail { prompt, feedback_list, feedback_url }))
        },
        Pending::FormLookup => match outcome {
            Outcome::Lookup(Some(prompt)) => Step::Done(
                Response::Render(Page::FeedbackForm { prompt }),
            ),
            _ => not_found(),
        },
        Pending::SubmitLookup { id, content } => match outcome {
            Outcome::Lookup(Some(_)) => Step::Ask(
                Command::CreateFeedback { prompt_id: id, content },
                Pending::Submitting,
            ),
            _ => not_found(),
        },
        Pending::Submitting => match outcome {
            Outcome::FeedbackCreated(_) => Step::Done(Response::Render(Page::FeedbackThanks)),
            _ => Step::Done(
                Response::Text(String::from_str("Error submitting feedback")),
            ),
        },
    }
}

/// `row` is a new prompt with this title, which is not empty, and this
/// description, and `after` is `before` with that prompt filed.
pub open spec fn files_prompt(
    before: StoreView,
    title: Seq<char>,
    description: Seq<char>,
    row: PromptView,
    after: StoreView,
) -> bool {
    &&& title.len() > 0
    &&& row.title == title
    &&& row.description == description
    &&& is_random_id(row.id)
    &&& is_utc_stamp(row.created_at)
    &&& !holds_key(before.prompts, row.id)
    &&& after == before.with_prompt(row)
}

/// `row` is new feedback with this content on the prompt `prompt_id`,
/// which is there, and `after` is `before` with that feedback filed.
pub open spec fn files_feedback(
    before: StoreView,
    prompt_id: Seq<char>,
    content: Seq<char>,
    row: FeedbackView,
    after: StoreView,
) -> bool {
    &&& holds_key(before.prompts, prompt_id)
    &&& row.prompt_id == prompt_id
    &&& row.content == content
    &&& is_random_id(row.id)
    &&& is_utc_stamp(row.created_at)
    &&& !holds_key(before.feedback, row.id)
    &&& after == before.with_feedback(row)
}

/// Carrying out `command` on the store `before` gives `outcome` and
/// leaves the store `after`.
pub open spec fn executes(
    before: StoreView,
    command: Command,
    outcome: Outcome,
    after: StoreView,
) -> bool {
    match command {
        Command::ListPrompts => {
            &&& after == before
            &&& outcome matches Outcome::Prompts(list)
            &&& prompt_rows(list@) == before.prompts
        },
        Command::GetPrompt { id } => {
            &&& after == before
            &&& outcome matches Outcome::Lookup(found)
            &&& match found {
                Some(prompt) => before.prompt(id@) == Some(prompt@),
                None => before.prompt(id@) is None,
            }
        },
        Command::CreatePrompt { title, description } => match outcome {
            Outcome::PromptCreated(prompt) => files_prompt(
                before,
                title@,
                description@,
                prompt@,
                after,
            ),
            Outcome::Failed => after == before,
            _ => false,
        },
        Command::ListFeedback { prompt_id } => {
            &&& after == before
            &&& outcome matches Outcome::FeedbackList(list)
            &&& feedback_rows(list@) == before.feedback_for(prompt_id@)
        },
        Command::CreateFeedback { prompt_id, content } => match outcome {
            Outcome::FeedbackCreated(feedback) => files_feedback(
                before,
                prompt_id@,
                content@,
                feedback@,
                after,
            ),
            Outcome::Failed => after == before,
            _ => false,
        },
    }
}

/// Serving `request` on the store `before` gives `response` and leaves
/// the store `after`.
pub open spec fn serves(
    before: StoreView,
    request: Request,
    response: Response,
    after: StoreView,
) -> bool {
    match request {
        Request::Root => after == before && response.redirects_to(listing_path()),
        Request::List => {
            &&& after == before
            &&& response matches Response::Render(Page::PromptList { prompts })
            &&& prompt_rows(prompts@) == before.prompts
        },
        Request::NewForm => after == before && response matches Response::Render(Page::NewPrompt),
        Request::NewSubmit { title, description } => {
            ||| after == before && response.redirects_to(listing_path())
            ||| exists|row: PromptView|
                #[trigger] files_prompt(before, title@, description@, row, after)
                    && response.redirects_to(detail_path(row.id))
        },
        Request::Detail { host, id } => {
            &&& after == before
            &&& match before.prompt(id@) {
                Some(row) => {
                    &&& response matches Response::Render(
                        Page::PromptDetail { prompt, feedback_list, feedback_url },
                    )
                    &&& prompt@ == row
                    &&& feedback_rows(feedback_list@) == before.feedback_for(id@)
                    &&& feedback_url@ == feedback_link(host@, id@)
                },
                None => response.says(not_found_text()),
            }
        },
        Request::FeedbackForm { id } => {
            &&& after == before
            &&& match before.prompt(id@) {
                Some(row) => {
                    &&& response matches Response::Render(Page::FeedbackForm { prompt })
                    &&& prompt@ == row
                },
                None => response.says(not_found_text()),
            }
        },
        Request::FeedbackSubmit { id, content } => match before.prompt(id@) {
            Some(_) => {
                ||| after == before && response.says(submit_failed_text())
                ||| response matches Response::Render(Page::FeedbackThanks) && exists|
                    row: FeedbackView,
                | #[trigger] files_feedback(before, id@, content@, row, after)
            },
            None => after == before && response.says(not_found_text()),
        },
    }
}

/// The store of this library fails no command without a cause: a prompt
/// is not created only if it has no title or the store holds an
/// identifier of the random shape, by which the one drawn may be taken;
/// feedback is not created only if its prompt is not there or the store
/// holds feedback with such an identifier; and nothing else fails.
pub open spec fn fails_for_cause(before: StoreView, command: Command, outcome: Outcome) -> bool {
    outcome is Failed ==> match command {
        Command::CreatePrompt { title, .. } => title@.len() == 0 || holds_random_id(
            before.prompts,
        ),
        Command::CreateFeedback { prompt_id, .. } => !holds_key(before.prompts, prompt_id@)
            || holds_random_id(before.feedback),
        _ => false,
    }
}

/// On the store of this library a submission that can be filed is filed:
/// a new prompt with a title, where the store holds no identifier of the
/// random shape, and feedback on a prompt that is there, where the store
/// holds no feedback with such an identifier.
pub open spec fn files_what_it_can(
    before: StoreView,
    request: Request,
    response: Response,
    after: StoreView,
) -> bool {
    match request {
        Request::NewSubmit { title, description } => title@.len() > 0 && !holds_random_id(
            before.prompts,
        ) ==> exists|row: PromptView|
            #[trigger] files_prompt(before, title@, description@, row, after)
                && response.redirects_to(detail_path(row.id)),
        Request::FeedbackSubmit { id, content } => holds_key(before.prompts, id@)
            && !holds_random_id(before.feedback) ==> {
            &&& response matches Response::Render(Page::FeedbackThanks)
            &&& exists|row: FeedbackView|
                #[trigger] files_feedback(before, id@, content@, row, after)
        },
        _ => true,
    }
}

/// Carries out `command` on `store`. Whatever the store refuses comes
/// back as a failure without its reason.
pub fn execute(store: &mut Store, command: Command) -> (outcome: Outcome)
    requires
        old(store)@.wf(),
    ensures
        final(store)@.wf(),
        old(store)@.references_resolve() ==> final(store)@.references_resolve(),
        executes(old(store)@, command, outcome, final(store)@),
        fails_for_cause(old(store)@, command, outcome),
{
    match command {
        Command::ListPrompts => match get_all_prompts(store) {
            Ok(list) => Outcome::Prompts(list),
            Err(_) => Outcome::Failed,
        },
        Command::GetPrompt { id } => match get_prompt_by_id(store, id.as_str()) {
            Ok(found) => Outcome::Lookup(found),
            Err(_) => Outcome::Failed,
        },
        Command::CreatePrompt { title, description } => match create_prompt(
            store,
            title.as_str(),
            description.as_str(),
        ) {
            Ok(prompt) => Outcome::PromptCreated(prompt),
            Err(_) => Outcome::Failed,
        },
        Command::ListFeedback { prompt_id } => match get_feedback_for_prompt(
            store,
            prompt_id.as_str(),
        ) {
            Ok(list) => Outcome::FeedbackList(list),
            Err(_) => Outcome::Failed,
        },
        Command::CreateFeedback { prompt_id, content } => match create_feedback(
            store,
            prompt_id.as_str(),
            content.as_str(),
        ) {
            Ok(feedback) => Outcome::FeedbackCreated(feedback),
            Err(_) => Outcome::Failed,
        },
    }
}

/// The commands that a request under way as `pending` may still give
/// once the one it waits for is answered.
pub open spec fn asks_after(pending: Pending) -> nat {
    match pending {
        Pending::DetailLookup { .. } | Pending::SubmitLookup { .. } => 1,
        _ => 0,
    }
}

/// The commands that a request at `step` may still give.
pub open spec fn asks_left(step: Step) -> nat {
    match step {
        Step::Ask(_, pending) => 1 + asks_after(pending),
        Step::Done(_) => 0,
    }
}

/// A request never gives more than two commands: each answer leaves
/// fewer to give.
pub proof fn law_steps_run_out(request: Request, pending: Pending, outcome: Outcome, step: Step)
    ensures
        begins(request, step) ==> asks_left(step) <= 2,
        resumes(pending, outcome, step) ==> asks_left(step) <= asks_after(pending),
{
}

/// What holds of a request for `request` on the store `before` that has
/// come to `step`, with the store now at `now`: an answer is the answer
/// owed, and a command is the one the request gives at this point, with
/// the store as it was.
pub open spec fn on_track(before: StoreView, request: Request, now: StoreView, step: Step) -> bool {
    match step {
        Step::Done(response) => serves(before, request, response, now),
        Step::Ask(command, pending) => now == before && match pending {
            Pending::Listing => request is List && command is ListPrompts,
            Pending::Creating => {
                &&& request matches Request::NewSubmit { title, description }
                &&& command matches Command::CreatePrompt { title: t, description: d }
                &&& t@ == title@
                &&& d@ == description@
            },
            Pending::DetailLookup { host, id } => {
                &&& request matches Request::Detail { host: h, id: i }
                &&& command matches Command::GetPrompt { id: asked }
                &&& h@ == host@
                &&& i@ == id@
                &&& asked@ == id@
            },
            Pending::DetailFeedback { host, id, prompt } => {
                &&& request matches Request::Detail { host: h, id: i }
                &&& command matches Command::ListFeedback { prompt_id }
                &&& h@ == host@
                &&& i@ == id@
                &&& prompt_id@ == id@
                &&& before.prompt(id@) == Some(prompt@)
            },
            Pending::FormLookup => {
                &&& request matches Request::FeedbackForm { id }
                &&& command matches Command::GetPrompt { id: asked }
                &&& asked@ == id@
            },
            Pending::SubmitLookup { id, content } => {
                &&& request matches Request::FeedbackSubmit { id: i, content: c }
                &&& command matches Command::GetPrompt { id: asked }
                &&& i@ == id@
                &&& c@ == content@
                &&& asked@ == id@
            },
            Pending::Submitting => {
                &&& request matches Request::FeedbackSubmit { id, content }
                &&& command matches Command::CreateFeedback { prompt_id, content: c }
                &&& prompt_id@ == id@
                &&& c@ == content@
                &&& before.prompt(id@) is Some
            },
        },
    }
}

/// The first step of a request is on track.
pub proof fn law_begin_is_on_track(before: StoreView, request: Request, step: Step)
    requires
        begins(request, step),
    ensures
        on_track(before, request, before, step),
{
}

/// A request on track stays on track: when its command is carried out
/// and the outcome handed back, the step that follows is the command or
/// the answer owed, whichever store carried the command out.
pub proof fn law_resume_stays_on_track(
    before: StoreView,
    request: Request,
    now: StoreView,
    command: Command,
    pending: Pending,
    outcome: Outcome,
    after: StoreView,
    step: Step,
)
    requires
        on_track(before, request, now, Step::Ask(command, pending)),
        executes(now, command, outcome, after),
        resumes(pending, outcome, step),
    ensures
        on_track(before, request, after, step),
        asks_left(step) < asks_left(Step::Ask(command, pending)),
{
}

/// Feedback submitted on a prompt that is not there is not recorded: the
/// store stays as it was, and the answer says that the prompt was not
/// found.
pub proof fn law_submission_needs_prompt(
    before: StoreView,
    request: Request,
    response: Response,
    after: StoreView,
)
    requires
        serves(before, request, response, after),
        request matches Request::FeedbackSubmit { id, .. } && !holds_key(before.prompts, id@),
    ensures
        after == before,
        response.says(not_found_text()),
{
}

/// Serves `request` on `store`: carries out each command that the
/// request gives until it has its answer.
pub fn serve(store: &mut Store, request: Request) -> (response: Response)
    requires
        old(store)@.wf(),
    ensures
        final(store)@.wf(),
        old(store)@.references_resolve() ==> final(store)@.references_resolve(),
        serves(old(store)@, request, response, final(store)@),
        files_what_it_can(old(store)@, request, response, final(store)@),
{
    let ghost asked = request;
    let mut step = begin(request);
    loop
        invariant
            asked == request,
            store@.wf(),
            old(store)@.references_resolve() ==> store@.references_resolve(),
            on_track(old(store)@, asked, store@, step),
            step matches Step::Done(response) ==> files_what_it_can(
                old(store)@,
                asked,
                response,
                store@,
            ),
        decreases asks_left(step),
    {
        match step {
            Step::Done(response) => {
                return response;
            },
            Step::Ask(command, pending) => {
                let outcome = execute(store, command);
                step = resume(pending, outcome);
            },
        }
    }
}

} // verus!
