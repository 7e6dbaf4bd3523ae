//! Process-wide agent state: settings, the run status machine, and the
//! guarantee that only one run can be started at a time.

use vstd::prelude::*;

use crate::error::AppError;

verus! {

/// Where the agent stands.
#[derive(Debug, Clone, Copy, PartialEq, Eq, Structural)]
pub enum AgentStatus {
    Idle,
    Running,
    Paused,
    Error,
}

/// User-editable settings. Credentials are read once at run start; live
/// changes do not affect an in-flight run.
#[derive(Debug)]
pub struct Settings {
    pub anthropic_api_key: String,
    pub openai_api_key: String,
    pub openrouter_api_key: String,
    pub provider: String,
    pub model: String,
    pub display_width: u32,
    pub display_height: u32,
    pub shell_timeout_secs: u64,
    pub setup_complete: bool,
}

impl Default for Settings {
    /// The out-of-the-box settings.
    fn default() -> (r: Settings)
        ensures
            r.anthropic_api_key@ == Seq::<char>::empty(),
            r.openai_api_key@ == Seq::<char>::empty(),
            r.openrouter_api_key@ == Seq::<char>::empty(),
            r.provider@ == "anthropic"@,
            r.model@ == "computer-use-default"@,
            r.display_width == 1280u32,
            r.display_height == 800u32,
            r.shell_timeout_secs == 30u64,
            r.setup_complete == false,
    {
        Settings {
            anthropic_api_key: String::new(),
            openai_api_key: String::new(),
            openrouter_api_key: String::new(),
            provider: String::from_str("anthropic"),
            model: String::from_str("computer-use-default"),
            display_width: 1280,
            display_height: 800,
            shell_timeout_secs: 30,
            setup_complete: false,
        }
    }
}

impl Settings {
    /// A field-for-field copy.
    pub fn duplicate(&self) -> (r: Settings)
        ensures
            r.anthropic_api_key@ == self.anthropic_api_key@,
            r.openai_api_key@ == self.openai_api_key@,
            r.openrouter_api_key@ == self.openrouter_api_key@,
            r.provider@ == self.provider@,
            r.model@ == self.model@,
            r.display_width == self.display_width,
            r.display_height == self.display_height,
            r.shell_timeout_secs == self.shell_timeout_secs,
            r.setup_complete == self.setup_complete,
    {
        Settings {
            anthropic_api_key: self.anthropic_api_key.clone(),
            openai_api_key: self.openai_api_key.clone(),
            openrouter_api_key: self.openrouter_api_key.clone(),
            provider: self.provider.clone(),
            model: self.model.clone(),
            display_width: self.display_width,
            display_height: self.display_height,
            shell_timeout_secs: self.shell_timeout_secs,
            setup_complete: self.setup_complete,
        }
    }
}

/// The agent's run state. `cancel_requested` stands for the cancellation
/// signal the loop polls at its checkpoints.
#[derive(Debug)]
pub struct AgentState {
    pub status: AgentStatus,
    pub current_task: Option<String>,
    pub iteration: u32,
    pub estimated_seconds: Option<u32>,
    pub cancel_requested: bool,
}

impl Default for AgentState {
    /// Idle, with nothing running.
    fn default() -> (r: AgentState)
        ensures
            r.status == AgentStatus::Idle,
            r.current_task is None,
            r.iteration == 0u32,
            r.estimated_seconds is None,
            r.cancel_requested == false,
    {
        AgentState {
            status: AgentStatus::Idle,
            current_task: None,
            iteration: 0,
            estimated_seconds: None,
            cancel_requested: false,
        }
    }
}

impl AgentState {
    /// Begin a run. While one is already running the request is rejected
    /// with `Agent is already running` and the state is left untouched;
    /// otherwise the state becomes Running on the given task with counters
    /// reset.
    pub fn start_run(&mut self, task: String) -> (r: Result<(), AppError>)
        ensures
            old(self).status == AgentStatus::Running ==> (*final(self) == *old(self) && (
            r matches Err(e) && e is Agent && e->Agent_0@ == "Agent is already running"@)),
            old(self).status != AgentStatus::Running ==> (r is Ok && final(self).status
                == AgentStatus::Running && (final(self).current_task matches Some(t) && t@
                == task@) && final(self).iteration == 0u32
                && final(self).estimated_seconds is None
                && final(self).cancel_requested == false),
    {
        if self.status == AgentStatus::Running {
            return Err(AppError::Agent(String::from_str("Agent is already running")));
        }
        self.status = AgentStatus::Running;
        self.current_task = Some(task);
        self.iteration = 0;
        self.estimated_seconds = None;
        self.cancel_requested = false;
        Ok(())
    }

    /// Stop: request cancellation and return to Idle with the run fields
    /// cleared. Stopping an idle agent is harmless.
    pub fn stop_run(&mut self)
        ensures
            final(self).status == AgentStatus::Idle,
            final(self).current_task is None,
            final(self).iteration == 0u32,
            final(self).estimated_seconds is None,
            final(self).cancel_requested == true,
    {
        self.cancel_requested = true;
        self.status = AgentStatus::Idle;
        self.current_task = None;
        self.iteration = 0;
        self.estimated_seconds = None;
    }

    /// Record the loop's current iteration.
    pub fn set_iteration(&mut self, n: u32)
        ensures
            *final(self) == (AgentState { iteration: n, ..*old(self) }),
    {
        self.iteration = n;
    }

    /// Record the model's latest remaining-time estimate.
    pub fn set_estimate(&mut self, secs: u32)
        ensures
            *final(self) == (AgentState { estimated_seconds: Some(secs), ..*old(self) }),
    {
        self.estimated_seconds = Some(secs);
    }

    /// Record that the run ended in an error.
    pub fn mark_error(&mut self)
        ensures
            *final(self) == (AgentState { status: AgentStatus::Error, ..*old(self) }),
    {
        self.status = AgentStatus::Error;
    }

    /// Record that the run finished and the agent is idle again.
    pub fn mark_idle(&mut self)
        ensures
            *final(self) == (AgentState { status: AgentStatus::Idle, ..*old(self) }),
    {
        self.status = AgentStatus::Idle;
    }
}

} // verus!
