//! The editor panel's state: what the user typed and picked, the status
//! line, and the requests the panel hands to the engine.

use vstd::prelude::*;
use vstd::string::*;
use crate::text::{decimal, decimal_string};

verus! {

/// Lowest background-removal tolerance the panel offers.
pub const MIN_CROP_TOLERANCE: u8 = 5;

/// Highest background-removal tolerance the panel offers.
pub const MAX_CROP_TOLERANCE: u8 = 100;

/// The editor panel's state.
pub struct GuiEditor {
    /// The status line.
    pub ai_output: String,
    /// A sprite generation was asked for and not yet taken.
    pub generate_requested: bool,
    pub show_3d: bool,
    pub text_box: String,
    /// The workflow to generate with.
    pub workflow_name: String,
    /// The prompt to generate from.
    pub prompt_text: String,
    /// The workflows found in the workflow directory.
    pub available_workflows: Vec<String>,
    /// A refresh of the workflow list was asked for.
    pub loading_workflows: bool,
    /// The workflow list was loaded at least once.
    pub workflows_loaded: bool,
    pub auto_crop: bool,
    pub crop_tolerance: u8,
}

/// `e` equals `old` but for its status line.
pub open spec fn same_but_status(e: GuiEditor, old: GuiEditor) -> bool {
    e == GuiEditor { ai_output: e.ai_output, ..old }
}

/// The panel once its generation request is taken.
pub open spec fn request_taken(e: GuiEditor) -> GuiEditor {
    GuiEditor { generate_requested: false, ..e }
}

/// A request is taken at most once: taking it again finds none and leaves
/// the panel as it was.
pub proof fn lemma_request_taken_once(e: GuiEditor)
    ensures
        !request_taken(e).generate_requested,
        request_taken(request_taken(e)) == request_taken(e),
{
}

impl GuiEditor {
    /// An empty panel: no status, no request, the 3D view hidden.
    pub fn new() -> (r: GuiEditor)
        ensures
            r.ai_output@ == Seq::<char>::empty(),
            !r.generate_requested,
            !r.show_3d,
            r.text_box@ == Seq::<char>::empty(),
            r.workflow_name@ == Seq::<char>::empty(),
            r.prompt_text@ == Seq::<char>::empty(),
            r.available_workflows@.len() == 0,
            !r.loading_workflows,
            !r.workflows_loaded,
            !r.auto_crop,
            r.crop_tolerance == MIN_CROP_TOLERANCE,
    {
        GuiEditor {
            ai_output: String::new(),
            generate_requested: false,
            show_3d: false,
            text_box: String::new(),
            workflow_name: String::new(),
            prompt_text: String::new(),
            available_workflows: Vec::new(),
            loading_workflows: false,
            workflows_loaded: false,
            auto_crop: false,
            crop_tolerance: MIN_CROP_TOLERANCE,
        }
    }

    /// Shows `output` on the status line.
    pub fn set_ai_output(&mut self, output: String)
        ensures
            final(self).ai_output == output,
            same_but_status(*final(self), *old(self)),
    {
        self.ai_output = output;
    }

    /// Takes the pending generation request: returns whether one was
    /// pending and clears it.
    pub fn take_generate_request(&mut self) -> (r: bool)
        ensures
            r == old(self).generate_requested,
            *final(self) == request_taken(*old(self)),
    {
        let req = self.generate_requested;
        self.generate_requested = false;
        req
    }

    /// The "Generate Sprite" button: a request is recorded only when both a
    /// workflow and a prompt are given.
    pub fn press_generate(&mut self)
        ensures
            *final(self) == (GuiEditor {
                generate_requested: old(self).generate_requested || (old(self).workflow_name@.len() > 0
                    && old(self).prompt_text@.len() > 0),
                ..*old(self)
            }),
    {
        if !self.workflow_name.as_str().is_empty() && !self.prompt_text.as_str().is_empty() {
            self.generate_requested = true;
        }
    }

    /// Starts a pending refresh of the workflow list: clears the request
    /// and shows that loading began. Returns whether one was pending.
    pub fn begin_workflow_refresh(&mut self) -> (r: bool)
        ensures
            r == old(self).loading_workflows,
            r ==> final(self).ai_output@ == "Loading workflows..."@ && *final(self) == (GuiEditor {
                loading_workflows: false,
                ai_output: final(self).ai_output,
                ..*old(self)
            }),
            !r ==> *final(self) == *old(self),
    {
        if self.loading_workflows {
            self.loading_workflows = false;
            self.set_ai_output(String::from_str("Loading workflows..."));
            true
        } else {
            false
        }
    }

    /// Records the outcome of a workflow list refresh: the names found, or
    /// the error text.
    pub fn finish_workflow_refresh(&mut self, result: Result<Vec<String>, String>)
        ensures
            match result {
                Ok(names) => {
                    &&& final(self).available_workflows == names
                    &&& final(self).workflows_loaded
                    &&& final(self).ai_output@ == "Loaded "@ + decimal(names@.len()) + " workflows"@
                    &&& *final(self) == (GuiEditor {
                        available_workflows: names,
                        workflows_loaded: true,
                        ai_output: final(self).ai_output,
                        ..*old(self)
                    })
                },
                Err(e) => {
                    &&& final(self).ai_output@ == "Error loading workflows: "@ + e@
                    &&& same_but_status(*final(self), *old(self))
                },
            },
    {
        match result {
            Ok(workflows) => {
                let count = workflows.len();
                self.available_workflows = workflows;
                self.workflows_loaded = true;
                let mut msg = String::from_str("Loaded ");
                msg.append(decimal_string(count).as_str());
                msg.append(" workflows");
                self.set_ai_output(msg);
            },
            Err(e) => {
                let mut msg = String::from_str("Error loading workflows: ");
                msg.append(e.as_str());
                self.set_ai_output(msg);
            },
        }
    }

    /// Starts a pending sprite generation: takes the request and, when one
    /// was pending, shows that generation began and returns the workflow
    /// name and the prompt to generate with.
    pub fn begin_generation(&mut self) -> (r: Option<(String, String)>)
        ensures
            match r {
                Some((workflow, prompt)) => {
                    &&& old(self).generate_requested
                    &&& workflow@ == old(self).workflow_name@
                    &&& prompt@ == old(self).prompt_text@
                    &&& final(self).ai_output@ == "Generating sprite..."@
                    &&& *final(self) == (GuiEditor {
                        generate_requested: false,
                        ai_output: final(self).ai_output,
                        ..*old(self)
                    })
                },
                None => !old(self).generate_requested && *final(self) == *old(self),
            },
    {
        if self.take_generate_request() {
            let workflow_name = self.workflow_name.clone();
            let prompt_text = self.prompt_text.clone();
            self.set_ai_output(String::from_str("Generating sprite..."));
            Some((workflow_name, prompt_text))
        } else {
            None
        }
    }

    /// Records the outcome of a sprite generation: the size of the image
    /// received, or the error text.
    pub fn finish_generation(&mut self, result: Result<usize, String>)
        ensures
            match result {
                Ok(n) => final(self).ai_output@ == "Sprite generated ("@ + decimal(n as nat) + " bytes)"@,
                Err(e) => final(self).ai_output@ == "Error: "@ + e@,
            },
            same_but_status(*final(self), *old(self)),
    {
        match result {
            Ok(n) => {
                let mut msg = String::from_str("Sprite generated (");
                msg.append(decimal_string(n).as_str());
                msg.append(" bytes)");
                self.set_ai_output(msg);
            },
            Err(e) => {
                let mut msg = String::from_str("Error: ");
                msg.append(e.as_str());
                self.set_ai_output(msg);
            },
        }
    }
}

} // verus!
