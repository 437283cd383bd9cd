//! The request and response values of the fine-tuning and assistant
//! endpoints.
use vstd::prelude::*;
use std::collections::HashMap;

verus! {

/// A number-or-"auto" hyperparameter.
#[derive(Clone, Debug, PartialEq)]
pub enum BatchSize {
    Auto,
    Integer(u32),
    String(String),
}

#[derive(Clone, Debug, PartialEq)]
pub enum LearningRateMultiplier {
    Auto,
    Integer(u32),
    String(String),
}

#[derive(Clone, Debug, PartialEq)]
pub enum NEpochs {
    Auto,
    Integer(u32),
    String(String),
}

#[derive(Clone, Copy, Debug, PartialEq, Eq, Structural)]
pub enum FineTuningJobStatus {
    ValidatingFiles,
    Queued,
    Running,
    Succeeded,
    Failed,
    Cancelled,
}

#[derive(Clone, Debug, PartialEq)]
pub struct FineTuningJobHyperparameters {
    /// Examples in each batch.
    pub batch_size: Option<BatchSize>,
    /// Scaling factor for the learning rate.
    pub learning_rate_multiplier: Option<LearningRateMultiplier>,
    /// Full passes through the training data.
    pub n_epochs: NEpochs,
}

#[derive(Clone, Debug, PartialEq)]
pub struct FineTuningJobError {
    pub code: String,
    pub message: String,
    pub param: Option<String>,
}

#[derive(Clone, Debug, PartialEq)]
pub struct FineTuningJob {
    pub id: String,
    /// Unix time, in seconds, of creation.
    pub created_at: u32,
    /// Why the job failed, for a failed job.
    pub error: Option<FineTuningJobError>,
    /// The model being created; absent while the job runs.
    pub fine_tuned_model: Option<String>,
    pub finished_at: Option<u32>,
    pub hyperparameters: FineTuningJobHyperparameters,
    /// The base model.
    pub model: String,
    pub object: String,
    pub organization_id: String,
    pub result_files: Vec<String>,
    pub status: FineTuningJobStatus,
    pub trained_tokens: Option<u32>,
    pub training_file: String,
    pub validation_file: Option<String>,
}

#[derive(Clone, Debug, PartialEq)]
pub struct CreateFineTuningJobParameters {
    pub model: String,
    pub training_file: String,
    pub hyperparameters: Option<FineTuningJobHyperparameters>,
    /// Up to 18 characters added to the fine-tuned model's name.
    pub suffix: Option<String>,
    pub validation_file: Option<String>,
}

#[derive(Clone, Debug, PartialEq)]
pub struct FineTuningJobEvent {
    pub id: String,
    pub created_at: u32,
    pub level: String,
    pub message: String,
    pub object: String,
}

#[derive(Clone, Debug, PartialEq)]
pub struct ListFineTuningJobsResponse {
    pub object: String,
    pub data: Vec<FineTuningJob>,
    pub has_more: bool,
}

#[derive(Clone, Debug, PartialEq)]
pub struct ListFineTuningJobEventsResponse {
    pub object: String,
    pub data: Vec<FineTuningJobEvent>,
    pub has_more: bool,
}

#[derive(Clone, Debug, PartialEq)]
pub struct ListFineTuningJobsParameters {
    /// The last job of the previous page.
    pub after: Option<String>,
    pub limit: Option<u32>,
}

#[derive(Clone, Debug, PartialEq)]
pub struct ListFineTuningJobEventsParameters {
    /// The last event of the previous page.
    pub after: Option<String>,
    pub limit: Option<u32>,
}

#[derive(Clone, Debug, PartialEq)]
pub struct AssistantCodeInterpreterTool {
    /// Always `code_interpreter`.
    pub tool_type: String,
}

#[derive(Clone, Debug, PartialEq)]
pub struct AssistantRetrievalTool {
    /// Always `retrieval`.
    pub tool_type: String,
}

#[derive(Clone, Debug, PartialEq)]
pub struct AssistantFunction {
    pub name: String,
    pub description: Option<String>,
    /// The accepted parameters, as a JSON Schema object.
    pub parameters: serde_json::Value,
}

#[derive(Clone, Debug, PartialEq)]
pub struct AssistantFunctionTool {
    /// Always `function`.
    pub tool_type: String,
    pub function: AssistantFunction,
}

#[derive(Clone, Debug, PartialEq)]
pub enum AssistantTools {
    CodeInterpreter(AssistantCodeInterpreterTool),
    Retrieval(AssistantRetrievalTool),
    Function(AssistantFunctionTool),
}

#[derive(Clone, Debug, PartialEq)]
pub struct Assistant {
    pub id: String,
    pub object: String,
    pub created_at: u32,
    pub name: Option<String>,
    pub description: Option<String>,
    pub model: String,
    pub instructions: Option<String>,
    pub tools: Vec<AssistantTools>,
    pub file_ids: Vec<String>,
    pub metadata: Option<HashMap<String, String>>,
}

#[derive(Clone, Debug, PartialEq)]
pub struct AssistantParameters {
    pub model: String,
    pub name: Option<String>,
    pub description: Option<String>,
    pub instructions: Option<String>,
    pub tools: Option<Vec<AssistantTools>>,
    pub file_ids: Vec<String>,
    pub metadata: Option<HashMap<String, String>>,
}

#[derive(Clone, Debug, PartialEq)]
pub struct ListAssistantsResponse {
    pub object: String,
    pub data: Vec<Assistant>,
    pub first_id: Option<String>,
    pub last_id: Option<String>,
    pub has_more: bool,
}

#[derive(Clone, Debug, PartialEq)]
pub struct AssistantFile {
    pub id: String,
    pub object: String,
    pub created_at: u32,
    pub assistant_id: String,
}

#[derive(Clone, Debug, PartialEq)]
pub struct CreateAssistantFileParameters {
    /// A file that the assistant should use.
    pub file_id: String,
}

#[derive(Clone, Debug, PartialEq)]
pub struct ListAssistantFilesResponse {
    pub object: String,
    pub data: Vec<AssistantFile>,
    pub first_id: String,
    pub last_id: String,
    pub has_more: bool,
}

} // verus!
