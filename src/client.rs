//! The API client and its endpoint groups, with the request paths they use.
use vstd::prelude::*;
use vstd::string::StringExecFns;

verus! {

/// Connection settings for the inference service.
pub struct Client {
    pub base_url: String,
    pub api_key: String,
}

/// The fine-tuning job endpoints.
pub struct FineTuning<'a> {
    pub client: &'a Client,
}

/// The moderation endpoint.
pub struct Moderations<'a> {
    pub client: &'a Client,
}

impl Client {
    pub fn new(base_url: String, api_key: String) -> (r: Client)
        ensures
            r.base_url@ == base_url@,
            r.api_key@ == api_key@,
    {
        Client { base_url, api_key }
    }

    /// Manage fine-tuning jobs to tailor a model to specific training data.
    pub fn fine_tuning(&self) -> (r: FineTuning<'_>)
        ensures
            r.client == self,
    {
        FineTuning { client: self }
    }

    /// Classify input text against the content policy.
    pub fn moderations(&self) -> (r: Moderations<'_>)
        ensures
            r.client == self,
    {
        Moderations { client: self }
    }
}

impl FineTuning<'_> {
    /// The path that lists and creates jobs.
    pub fn jobs_path(&self) -> (r: String)
        ensures
            r@ == "/fine_tuning/jobs"@,
    {
        String::from_str("/fine_tuning/jobs")
    }

    /// The path of one job.
    pub fn job_path(&self, id: &str) -> (r: String)
        ensures
            r@ == "/fine_tuning/jobs/"@ + id@,
    {
        String::from_str("/fine_tuning/jobs/").concat(id)
    }

    /// The path that cancels one job.
    pub fn cancel_path(&self, id: &str) -> (r: String)
        ensures
            r@ == "/fine_tuning/jobs/"@ + id@ + "/cancel"@,
    {
        self.job_path(id).concat("/cancel")
    }

    /// The path of one job's events.
    pub fn events_path(&self, id: &str) -> (r: String)
        ensures
            r@ == "/fine_tuning/jobs/"@ + id@ + "/events"@,
    {
        self.job_path(id).concat("/events")
    }
}

impl Moderations<'_> {
    /// The path that classifies text.
    pub fn create_path(&self) -> (r: String)
        ensures
            r@ == "/moderations"@,
    {
        String::from_str("/moderations")
    }
}

} // verus!
