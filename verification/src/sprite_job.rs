//! Generating a sprite on the image-generation server, as a state machine:
//! the caller performs each action (file reads, HTTP requests, waits) and
//! hands back what happened; the job decides what comes next.

use vstd::prelude::*;
use vstd::string::*;
use crate::comfy::{ComfyServer, PromptHistory, first_image_output, first_output_image, view_url_of};
use crate::json::{Json, JsonValue, parse_error_text, parse_json, parsed_json};
use crate::workflow::{
    SubgraphNode, class_type_of, first_subgraph, inject_prompt, is_api_format, is_api_workflow,
    validate_api_workflow, with_prompt, workflow_file, workflow_file_name,
};

verus! {

/// How many times the history of a queued prompt is asked for (once a
/// second) before giving up.
pub const MAX_POLL_ATTEMPTS: u32 = 120;

/// Why generating a sprite failed.
pub enum SpriteError {
    /// No workflow file at `path`.
    WorkflowNotFound { path: String },
    /// The workflow file could not be read or is not JSON.
    WorkflowUnreadable { message: String },
    /// The workflow is in the server's web (graph) format.
    WebFormat,
    /// A node of the workflow is a subgraph reference.
    Subgraph(SubgraphNode),
    /// An HTTP request failed.
    Transport { message: String },
    /// The server refused the prompt with this status and body.
    HttpStatus { status: String, body: String },
    /// The reply to the prompt is not the expected record.
    BadPromptResponse { error: String, body: String },
    /// The history reply is not JSON or not the expected record.
    BadHistory { message: String },
    /// No image was ready after the last attempt.
    TimedOut,
}

/// What reading the workflow file gave.
pub enum WorkflowRead {
    /// The file's contents.
    Found { contents: String },
    /// No file at `path`.
    NotFound { path: String },
    /// Reading or parsing failed.
    Failed { message: String },
}

/// What happened when the caller performed the last action.
pub enum SpriteEvent {
    WorkflowRead(WorkflowRead),
    /// The server answered the prompt: whether the status is a success, the
    /// status line, the body, and the prompt id read from the body.
    PromptPosted { success: bool, status: String, body: String, prompt_id: Result<String, String> },
    /// The history request got an unsuccessful status.
    HistoryNotReady,
    /// The body of the history reply.
    HistoryFetched { body: String },
    /// The prompt's history entry read as a history record, or why not.
    OutputsDecoded(Result<PromptHistory, String>),
    /// The bytes of the generated image.
    ImageFetched(Vec<u8>),
    /// The HTTP request failed.
    RequestFailed { message: String },
}

/// What the caller is to do next.
pub enum SpriteAction {
    /// Read and parse the workflow file `file_name` of the workflow directory.
    ReadWorkflow { file_name: String },
    /// POST `body` as JSON to `url`.
    PostPrompt { url: String, body: Json },
    /// Wait one second, then GET `url`.
    FetchHistory { url: String },
    /// Read `entry` as a history record.
    DecodeOutputs { entry: Json },
    /// GET the bytes at `url`.
    FetchImage { url: String },
    /// The job is over.
    Finish(Result<Vec<u8>, SpriteError>),
}

/// Where a job stands.
pub enum SpriteStage {
    ReadingWorkflow,
    Submitting,
    /// Waiting for the history of prompt `prompt_id`; `attempt` counts the
    /// requests made before the current one.
    Polling { prompt_id: String, attempt: u32 },
    /// Waiting for the decoded history of prompt `prompt_id`.
    ReadingOutputs { prompt_id: String, attempt: u32 },
    Downloading,
    Finished,
}

/// A sprite generation in progress.
pub struct SpriteJob {
    pub server: ComfyServer,
    pub prompt_text: String,
    pub stage: SpriteStage,
}

/// The error the job ended with, when it ended with one.
pub open spec fn failed_with(s2: SpriteJob, a: SpriteAction) -> Option<SpriteError> {
    if s2.stage is Finished {
        match a {
            SpriteAction::Finish(Err(e)) => Some(e),
            _ => None,
        }
    } else {
        None
    }
}

/// The next history request after attempt `attempt`, or the time-out.
pub open spec fn poll_next(job: SpriteJob, prompt_id: Seq<char>, attempt: int, s2: SpriteJob, a: SpriteAction) -> bool {
    if attempt + 1 < MAX_POLL_ATTEMPTS {
        &&& s2.stage matches SpriteStage::Polling { prompt_id: id2, attempt: n2 } && id2@ == prompt_id && n2
            == attempt + 1
        &&& a matches SpriteAction::FetchHistory { url } && url@ == job.server.url@ + "/history/"@ + prompt_id
    } else {
        (failed_with(s2, a) matches Some(e) && e is TimedOut)
    }
}

/// No node of workflow `w` is a subgraph reference.
pub open spec fn subgraph_free(w: JsonValue) -> bool {
    match w {
        JsonValue::Object(m) => first_subgraph(m) >= m.len(),
        _ => true,
    }
}

/// What the job does with the workflow document `w`.
pub open spec fn accept_workflow(job: SpriteJob, w: JsonValue, s2: SpriteJob, a: SpriteAction) -> bool {
    if !is_api_workflow(w) && w.get("nodes"@) is Some {
        (failed_with(s2, a) matches Some(e) && e is WebFormat)
    } else if !subgraph_free(w) {
        let m = w->Object_0;
        let i = first_subgraph(m);
        (failed_with(s2, a) matches Some(e) && e matches SpriteError::Subgraph(node) && node.node_id@ == m[i].0 && class_type_of(m[i].1) == Some(node.class_type@))
    } else {
        &&& s2.stage is Submitting
        &&& a matches SpriteAction::PostPrompt { url, body } && url@ == job.server.url@ + "/prompt"@ && body@
            == JsonValue::Object(seq![("prompt"@, with_prompt(w, job.prompt_text@))])
    }
}

/// A request failed: the job ends with the transport error.
pub open spec fn transport_failure(message: Seq<char>, s2: SpriteJob, a: SpriteAction) -> bool {
    (failed_with(s2, a) matches Some(e) && e matches SpriteError::Transport { message: m } && m@ == message)
}

/// The job `job` takes event `event` to job `s2` and action `a`.
pub open spec fn step_relation(job: SpriteJob, event: SpriteEvent, s2: SpriteJob, a: SpriteAction) -> bool {
    match job.stage {
        SpriteStage::ReadingWorkflow => match event {
            SpriteEvent::WorkflowRead(WorkflowRead::Found { contents }) => match parsed_json(contents@) {
                Some(w) => accept_workflow(job, w, s2, a),
                None => (failed_with(s2, a) matches Some(e) && e matches SpriteError::WorkflowUnreadable { message: m }
                    && m@ == parse_error_text(contents@)),
            },
            SpriteEvent::WorkflowRead(WorkflowRead::NotFound { path }) => (failed_with(s2, a) matches Some(e) && e matches SpriteError::WorkflowNotFound { path: p } && p@ == path@),
            SpriteEvent::WorkflowRead(WorkflowRead::Failed { message }) => (failed_with(s2, a) matches Some(e) && e matches SpriteError::WorkflowUnreadable { message: m } && m@ == message@),
            _ => false,
        },
        SpriteStage::Submitting => match event {
            SpriteEvent::PromptPosted { success, status, body, prompt_id } => {
                if !success {
                    (failed_with(s2, a) matches Some(e) && e matches SpriteError::HttpStatus { status: s, body: b } && s@ == status@ && b@ == body@)
                } else {
                    match prompt_id {
                        Err(err) => (failed_with(s2, a) matches Some(e) && e matches SpriteError::BadPromptResponse { error: x, body: b } && x@ == err@ && b@ == body@),
                        Ok(id) => {
                            &&& s2.stage matches SpriteStage::Polling { prompt_id: id2, attempt: n } && id2@ == id@
                                && n == 0
                            &&& a matches SpriteAction::FetchHistory { url } && url@ == job.server.url@
                                + "/history/"@ + id@
                        },
                    }
                }
            },
            SpriteEvent::RequestFailed { message } => transport_failure(message@, s2, a),
            _ => false,
        },
        SpriteStage::Polling { prompt_id, attempt } => match event {
            SpriteEvent::HistoryNotReady => poll_next(job, prompt_id@, attempt as int, s2, a),
            SpriteEvent::HistoryFetched { body } => match parsed_json(body@) {
                None => (failed_with(s2, a) matches Some(e) && e matches SpriteError::BadHistory { message: m }
                    && m@ == parse_error_text(body@)),
                Some(history) => match history.get(prompt_id@) {
                Some(entry) => {
                    &&& s2.stage matches SpriteStage::ReadingOutputs { prompt_id: id2, attempt: n } && id2@
                        == prompt_id@ && n == attempt
                    &&& a matches SpriteAction::DecodeOutputs { entry: x } && x@ == entry
                },
                None => poll_next(job, prompt_id@, attempt as int, s2, a),
                },
            },
            SpriteEvent::RequestFailed { message } => transport_failure(message@, s2, a),
            _ => false,
        },
        SpriteStage::ReadingOutputs { prompt_id, attempt } => match event {
            SpriteEvent::OutputsDecoded(Err(message)) => (failed_with(s2, a) matches Some(e) && e matches SpriteError::BadHistory { message: m } && m@ == message@),
            SpriteEvent::OutputsDecoded(Ok(history)) => {
                let i = first_image_output(history.outputs@);
                if i < history.outputs@.len() {
                    &&& s2.stage is Downloading
                    &&& a matches SpriteAction::FetchImage { url } && url@ == view_url_of(
                        job.server.url@,
                        history.outputs@[i].1.images->Some_0@[0],
                    )
                } else {
                    poll_next(job, prompt_id@, attempt as int, s2, a)
                }
            },
            _ => false,
        },
        SpriteStage::Downloading => match event {
            SpriteEvent::ImageFetched(bytes) => {
                &&& s2.stage is Finished
                &&& a matches SpriteAction::Finish(Ok(b)) && b@ == bytes@
            },
            SpriteEvent::RequestFailed { message } => transport_failure(message@, s2, a),
            _ => false,
        },
        SpriteStage::Finished => false,
    }
}

/// The events a job at each stage waits for.
pub open spec fn awaits(stage: SpriteStage, event: SpriteEvent) -> bool {
    match stage {
        SpriteStage::ReadingWorkflow => event is WorkflowRead,
        SpriteStage::Submitting => event is PromptPosted || event is RequestFailed,
        SpriteStage::Polling { .. } => event is HistoryNotReady || event is HistoryFetched || event is RequestFailed,
        SpriteStage::ReadingOutputs { .. } => event is OutputsDecoded && (event matches SpriteEvent::OutputsDecoded(
            Ok(h),
        ) ==> h.wf()),
        SpriteStage::Downloading => event is ImageFetched || event is RequestFailed,
        SpriteStage::Finished => false,
    }
}

impl SpriteJob {
    /// The attempt count of a polling job stays below the limit.
    pub open spec fn wf(&self) -> bool {
        match self.stage {
            SpriteStage::Polling { attempt, .. } => attempt < MAX_POLL_ATTEMPTS,
            SpriteStage::ReadingOutputs { attempt, .. } => attempt < MAX_POLL_ATTEMPTS,
            _ => true,
        }
    }

    /// Starts generating a sprite with workflow `workflow_name` and prompt
    /// `prompt_text` on `server`: the first action reads the workflow file.
    pub fn start(server: ComfyServer, workflow_name: &str, prompt_text: &str) -> (r: (SpriteJob, SpriteAction))
        ensures
            r.0.wf(),
            r.0.server == server,
            r.0.prompt_text@ == prompt_text@,
            r.0.stage is ReadingWorkflow,
            r.1 matches SpriteAction::ReadWorkflow { file_name } && file_name@ == workflow_file(workflow_name@),
    {
        let file_name = workflow_file_name(workflow_name);
        (
            SpriteJob { server, prompt_text: prompt_text.to_owned(), stage: SpriteStage::ReadingWorkflow },
            SpriteAction::ReadWorkflow { file_name },
        )
    }

    /// Whether the job waits for `event`.
    pub fn awaits_event(&self, event: &SpriteEvent) -> (r: bool)
        ensures
            r == awaits(self.stage, *event),
    {
        match &self.stage {
            SpriteStage::ReadingWorkflow => matches!(event, SpriteEvent::WorkflowRead(_)),
            SpriteStage::Submitting => matches!(event, SpriteEvent::PromptPosted { .. } | SpriteEvent::RequestFailed { .. }),
            SpriteStage::Polling { .. } => matches!(
                event,
                SpriteEvent::HistoryNotReady | SpriteEvent::HistoryFetched { .. } | SpriteEvent::RequestFailed { .. }
            ),
            SpriteStage::ReadingOutputs { .. } => match event {
                SpriteEvent::OutputsDecoded(Ok(h)) => h.names_distinct(),
                SpriteEvent::OutputsDecoded(Err(_)) => true,
                _ => false,
            },
            SpriteStage::Downloading => matches!(event, SpriteEvent::ImageFetched(_) | SpriteEvent::RequestFailed { .. }),
            SpriteStage::Finished => false,
        }
    }

    fn fail(&mut self, error: SpriteError) -> (a: SpriteAction)
        ensures
            final(self).server == old(self).server,
            final(self).prompt_text == old(self).prompt_text,
            final(self).stage is Finished,
            a == SpriteAction::Finish(Err(error)),
    {
        self.stage = SpriteStage::Finished;
        SpriteAction::Finish(Err(error))
    }

    fn poll_again(&mut self, prompt_id: String, attempt: u32) -> (a: SpriteAction)
        requires
            attempt < MAX_POLL_ATTEMPTS,
        ensures
            final(self).server == old(self).server,
            final(self).prompt_text == old(self).prompt_text,
            final(self).wf(),
            poll_next(*old(self), prompt_id@, attempt as int, *final(self), a),
    {
        if attempt + 1 < MAX_POLL_ATTEMPTS {
            let url = self.server.history_url(prompt_id.as_str());
            self.stage = SpriteStage::Polling { prompt_id, attempt: attempt + 1 };
            SpriteAction::FetchHistory { url }
        } else {
            self.fail(SpriteError::TimedOut)
        }
    }

    /// Takes the outcome `event` of the last action and returns the next
    /// action.
    pub fn step(&mut self, event: SpriteEvent) -> (a: SpriteAction)
        requires
            old(self).wf(),
            awaits(old(self).stage, event),
        ensures
            final(self).wf(),
            final(self).server == old(self).server,
            final(self).prompt_text == old(self).prompt_text,
            step_relation(*old(self), event, *final(self), a),
    {
        let mut stage = SpriteStage::Finished;
        std::mem::swap(&mut stage, &mut self.stage);
        match stage {
            SpriteStage::ReadingWorkflow => match event {
                SpriteEvent::WorkflowRead(WorkflowRead::Found { contents }) => {
                    let workflow = match parse_json(contents.as_str()) {
                        Ok(w) => w,
                        Err(message) => {
                            return self.fail(SpriteError::WorkflowUnreadable { message });
                        },
                    };
                    let api = is_api_format(&workflow);
                    if !api && workflow.get("nodes").is_some() {
                        return self.fail(SpriteError::WebFormat);
                    }
                    match validate_api_workflow(&workflow) {
                        Err(node) => {
                            return self.fail(SpriteError::Subgraph(node));
                        },
                        Ok(()) => {
                            assert(subgraph_free(workflow@));
                        },
                    }
                    let mut api_workflow = workflow;
                    inject_prompt(&mut api_workflow, self.prompt_text.as_str());
                    let mut members: Vec<(String, Json)> = Vec::new();
                    members.push((String::from_str("prompt"), api_workflow));
                    let body = Json::Object(members);
                    assert(crate::json::members_view(members@) =~= seq![("prompt"@, with_prompt(workflow@, self.prompt_text@))]);
                    let url = self.server.prompt_url();
                    self.stage = SpriteStage::Submitting;
                    SpriteAction::PostPrompt { url, body }
                },
                SpriteEvent::WorkflowRead(WorkflowRead::NotFound { path }) => self.fail(
                    SpriteError::WorkflowNotFound { path },
                ),
                SpriteEvent::WorkflowRead(WorkflowRead::Failed { message }) => self.fail(
                    SpriteError::WorkflowUnreadable { message },
                ),
                _ => self.fail(SpriteError::TimedOut),
            },
            SpriteStage::Submitting => match event {
                SpriteEvent::PromptPosted { success, status, body, prompt_id } => {
                    if !success {
                        return self.fail(SpriteError::HttpStatus { status, body });
                    }
                    match prompt_id {
                        Err(error) => self.fail(SpriteError::BadPromptResponse { error, body }),
                        Ok(id) => {
                            let url = self.server.history_url(id.as_str());
                            self.stage = SpriteStage::Polling { prompt_id: id, attempt: 0 };
                            SpriteAction::FetchHistory { url }
                        },
                    }
                },
                SpriteEvent::RequestFailed { message } => self.fail(SpriteError::Transport { message }),
                _ => self.fail(SpriteError::TimedOut),
            },
            SpriteStage::Polling { prompt_id, attempt } => match event {
                SpriteEvent::HistoryNotReady => self.poll_again(prompt_id, attempt),
                SpriteEvent::HistoryFetched { body } => {
                    let history = match parse_json(body.as_str()) {
                        Ok(h) => h,
                        Err(message) => {
                            return self.fail(SpriteError::BadHistory { message });
                        },
                    };
                    match history.into_member(prompt_id.as_str()) {
                        Some(entry) => {
                            self.stage = SpriteStage::ReadingOutputs { prompt_id, attempt };
                            SpriteAction::DecodeOutputs { entry }
                        },
                        None => self.poll_again(prompt_id, attempt),
                    }
                },
                SpriteEvent::RequestFailed { message } => self.fail(SpriteError::Transport { message }),
                _ => self.fail(SpriteError::TimedOut),
            },
            SpriteStage::ReadingOutputs { prompt_id, attempt } => match event {
                SpriteEvent::OutputsDecoded(Err(message)) => self.fail(SpriteError::BadHistory { message }),
                SpriteEvent::OutputsDecoded(Ok(history)) => {
                    match first_output_image(&history) {
                        Some(info) => {
                            let url = self.server.view_url(info);
                            self.stage = SpriteStage::Downloading;
                            SpriteAction::FetchImage { url }
                        },
                        None => self.poll_again(prompt_id, attempt),
                    }
                },
                _ => self.fail(SpriteError::TimedOut),
            },
            SpriteStage::Downloading => match event {
                SpriteEvent::ImageFetched(bytes) => {
                    self.stage = SpriteStage::Finished;
                    SpriteAction::Finish(Ok(bytes))
                },
                SpriteEvent::RequestFailed { message } => self.fail(SpriteError::Transport { message }),
                _ => self.fail(SpriteError::TimedOut),
            },
            SpriteStage::Finished => self.fail(SpriteError::TimedOut),
        }
    }
}

/// The text that describes error `e`.
pub open spec fn error_text(e: SpriteError) -> Seq<char> {
    match e {
        SpriteError::WorkflowNotFound { path } => "Workflow file not found: "@ + path@
            + ". Place ComfyUI API-format JSON files in the 'workflows/' directory."@,
        SpriteError::WorkflowUnreadable { message } => message@,
        SpriteError::WebFormat => "This workflow is in ComfyUI web/graph format (not API format). Please re-export it using 'Save (API Format)' in ComfyUI. To enable this option: Settings \u{2192} Enable Dev Mode Options, then use the 'Save (API Format)' button in the menu."@,
        SpriteError::Subgraph(node) => "Node '"@ + node.node_id@ + "' has subgraph type '"@ + node.class_type@
            + "'. This workflow uses ComfyUI subgraphs which cannot be sent directly via the API. Please export the workflow using 'Save (API Format)' in ComfyUI (enable Dev Mode in settings first)."@,
        SpriteError::Transport { message } => message@,
        SpriteError::HttpStatus { status, body } => "ComfyUI returned HTTP "@ + status@ + ": "@ + body@,
        SpriteError::BadPromptResponse { error, body } => "Failed to parse prompt response: "@ + error@
            + " \u{2014} body: "@ + body@,
        SpriteError::BadHistory { message } => message@,
        SpriteError::TimedOut => "Timed out waiting for ComfyUI to generate the image"@,
    }
}

impl SpriteError {
    /// The text that describes the error.
    pub fn message(&self) -> (r: String)
        ensures
            r@ == error_text(*self),
    {
        match self {
            SpriteError::WorkflowNotFound { path } => {
                let mut s = String::from_str("Workflow file not found: ");
                s.append(path.as_str());
                s.append(". Place ComfyUI API-format JSON files in the 'workflows/' directory.");
                s
            },
            SpriteError::WorkflowUnreadable { message } => message.clone(),
            SpriteError::WebFormat => String::from_str(
                "This workflow is in ComfyUI web/graph format (not API format). Please re-export it using 'Save (API Format)' in ComfyUI. To enable this option: Settings \u{2192} Enable Dev Mode Options, then use the 'Save (API Format)' button in the menu.",
            ),
            SpriteError::Subgraph(node) => {
                let mut s = String::from_str("Node '");
                s.append(node.node_id.as_str());
                s.append("' has subgraph type '");
                s.append(node.class_type.as_str());
                s.append(
                    "'. This workflow uses ComfyUI subgraphs which cannot be sent directly via the API. Please export the workflow using 'Save (API Format)' in ComfyUI (enable Dev Mode in settings first).",
                );
                s
            },
            SpriteError::Transport { message } => message.clone(),
            SpriteError::HttpStatus { status, body } => {
                let mut s = String::from_str("ComfyUI returned HTTP ");
                s.append(status.as_str());
                s.append(": ");
                s.append(body.as_str());
                s
            },
            SpriteError::BadPromptResponse { error, body } => {
                let mut s = String::from_str("Failed to parse prompt response: ");
                s.append(error.as_str());
                s.append(" \u{2014} body: ");
                s.append(body.as_str());
                s
            },
            SpriteError::BadHistory { message } => message.clone(),
            SpriteError::TimedOut => String::from_str("Timed out waiting for ComfyUI to generate the image"),
        }
    }
}

/// A polling job that gets no history yet asks again with the next attempt
/// number, until the last attempt, after which it times out: at most
/// `MAX_POLL_ATTEMPTS` history requests are made.
pub proof fn lemma_polling_is_bounded(job: SpriteJob, s2: SpriteJob, a: SpriteAction)
    requires
        job.wf(),
        job.stage is Polling,
        step_relation(job, SpriteEvent::HistoryNotReady, s2, a),
    ensures
        ({
            let n = job.stage->Polling_attempt;
            &&& n + 1 < MAX_POLL_ATTEMPTS ==> (s2.stage matches SpriteStage::Polling { attempt, .. } && attempt
                == n + 1 && attempt < MAX_POLL_ATTEMPTS)
            &&& n + 1 == MAX_POLL_ATTEMPTS ==> (failed_with(s2, a) matches Some(e) && e is TimedOut)
        }),
{
}

/// How many more history requests a job at `stage` may still make: all
/// of them before the first is sent; none once the image is requested.
pub open spec fn history_budget(stage: SpriteStage) -> int {
    match stage {
        SpriteStage::ReadingWorkflow => MAX_POLL_ATTEMPTS as int,
        SpriteStage::Submitting => MAX_POLL_ATTEMPTS as int,
        SpriteStage::Polling { attempt, .. } => MAX_POLL_ATTEMPTS - 1 - attempt,
        SpriteStage::ReadingOutputs { attempt, .. } => MAX_POLL_ATTEMPTS - 1 - attempt,
        SpriteStage::Downloading => 0,
        SpriteStage::Finished => 0,
    }
}

/// Every history request a step makes uses up one of the job's remaining
/// requests, and no step gives any back, whatever the event: reading a
/// history entry keeps the count, a poll that finds no image counts one
/// more.
pub proof fn lemma_step_spends_history_budget(job: SpriteJob, event: SpriteEvent, s2: SpriteJob, a: SpriteAction)
    requires
        job.wf(),
        awaits(job.stage, event),
        step_relation(job, event, s2, a),
    ensures
        s2.wf(),
        0 <= history_budget(s2.stage),
        history_budget(job.stage) <= MAX_POLL_ATTEMPTS,
        history_budget(s2.stage) + (if a is FetchHistory { 1int } else { 0int }) <= history_budget(job.stage),
{
}

/// The number of history requests among `actions`.
pub open spec fn history_requests(actions: Seq<SpriteAction>) -> int
    decreases actions.len(),
{
    if actions.len() == 0 {
        0
    } else {
        history_requests(actions.drop_last()) + (if actions.last() is FetchHistory { 1int } else { 0int })
    }
}

/// Along any run of a job, for every sequence of events it waits for, at
/// most `MAX_POLL_ATTEMPTS` history requests are made: `jobs[i]` takes
/// `events[i]` to `jobs[i + 1]` and action `actions[i]`.
pub proof fn lemma_run_makes_bounded_history_requests(
    jobs: Seq<SpriteJob>,
    events: Seq<SpriteEvent>,
    actions: Seq<SpriteAction>,
)
    requires
        jobs.len() == events.len() + 1,
        actions.len() == events.len(),
        jobs[0].wf(),
        forall|i: int|
            0 <= i < events.len() ==> awaits(jobs[i].stage, #[trigger] events[i]) && step_relation(
                jobs[i],
                events[i],
                jobs[i + 1],
                actions[i],
            ),
    ensures
        history_requests(actions) <= MAX_POLL_ATTEMPTS,
{
    lemma_run_prefix(jobs, events, actions, events.len() as int);
    assert(actions.take(events.len() as int) =~= actions);
}

proof fn lemma_run_prefix(jobs: Seq<SpriteJob>, events: Seq<SpriteEvent>, actions: Seq<SpriteAction>, k: int)
    requires
        jobs.len() == events.len() + 1,
        actions.len() == events.len(),
        jobs[0].wf(),
        forall|i: int|
            0 <= i < events.len() ==> awaits(jobs[i].stage, #[trigger] events[i]) && step_relation(
                jobs[i],
                events[i],
                jobs[i + 1],
                actions[i],
            ),
        0 <= k <= events.len(),
    ensures
        jobs[k].wf(),
        0 <= history_budget(jobs[k].stage),
        history_requests(actions.take(k)) + history_budget(jobs[k].stage) <= history_budget(jobs[0].stage),
        history_budget(jobs[0].stage) <= MAX_POLL_ATTEMPTS,
    decreases k,
{
    if k == 0 {
        assert(actions.take(0).len() == 0);
        lemma_step_budget_bounds(jobs[0]);
    } else {
        lemma_run_prefix(jobs, events, actions, k - 1);
        assert(awaits(jobs[k - 1].stage, events[k - 1]));
        lemma_step_spends_history_budget(jobs[k - 1], events[k - 1], jobs[k], actions[k - 1]);
        assert(actions.take(k).drop_last() =~= actions.take(k - 1));
        assert(actions.take(k).last() == actions[k - 1]);
    }
}

proof fn lemma_step_budget_bounds(job: SpriteJob)
    requires
        job.wf(),
    ensures
        0 <= history_budget(job.stage) <= MAX_POLL_ATTEMPTS,
{
}

/// A failed request, in any stage that waits for one, ends the job with
/// the transport error carrying the request's message.
pub proof fn lemma_request_failure_ends_job(job: SpriteJob, message: String, s2: SpriteJob, a: SpriteAction)
    requires
        awaits(job.stage, SpriteEvent::RequestFailed { message }),
        step_relation(job, SpriteEvent::RequestFailed { message }, s2, a),
    ensures
        s2.stage is Finished,
        a matches SpriteAction::Finish(Err(SpriteError::Transport { message: m })) && m@ == message@,
{
}

/// A job succeeds only from the download stage, on the image bytes, and
/// with exactly those bytes; any finish ends the job.
pub proof fn lemma_success_only_with_fetched_image(job: SpriteJob, event: SpriteEvent, s2: SpriteJob, a: SpriteAction)
    requires
        step_relation(job, event, s2, a),
    ensures
        a is Finish ==> s2.stage is Finished,
        a matches SpriteAction::Finish(Ok(b)) ==> job.stage is Downloading && (event matches SpriteEvent::ImageFetched(
            bytes,
        ) && b@ == bytes@),
{
}

/// The prompt id a polling job waits for, if it polls.
pub open spec fn polled_prompt(stage: SpriteStage) -> Option<Seq<char>> {
    match stage {
        SpriteStage::Polling { prompt_id, .. } => Some(prompt_id@),
        SpriteStage::ReadingOutputs { prompt_id, .. } => Some(prompt_id@),
        _ => None,
    }
}

/// Once polling, the job keeps waiting for the same prompt; and every
/// history request it makes asks the server for the history of the prompt
/// it then polls.
pub proof fn lemma_polling_keeps_prompt(job: SpriteJob, event: SpriteEvent, s2: SpriteJob, a: SpriteAction)
    requires
        step_relation(job, event, s2, a),
    ensures
        polled_prompt(job.stage) is Some && polled_prompt(s2.stage) is Some ==> polled_prompt(s2.stage)
            == polled_prompt(job.stage),
        a matches SpriteAction::FetchHistory { url } ==> (polled_prompt(s2.stage) matches Some(id) && url@
            == job.server.url@ + "/history/"@ + id),
{
}

/// A prompt is posted only for a workflow file that parses, is not in web
/// format and has no subgraph node, and what is posted is that workflow
/// with the job's prompt injected.
pub proof fn lemma_post_only_accepted_workflow(job: SpriteJob, event: SpriteEvent, s2: SpriteJob, a: SpriteAction)
    requires
        step_relation(job, event, s2, a),
    ensures
        a matches SpriteAction::PostPrompt { url, body } ==> {
            &&& job.stage is ReadingWorkflow
            &&& url@ == job.server.url@ + "/prompt"@
            &&& event matches SpriteEvent::WorkflowRead(WorkflowRead::Found { contents }) && parsed_json(contents@)
                matches Some(w) && (is_api_workflow(w) || w.get("nodes"@) is None) && subgraph_free(w) && body@
                == JsonValue::Object(seq![("prompt"@, with_prompt(w, job.prompt_text@))])
        },
{
}

} // verus!
