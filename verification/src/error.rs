use vstd::prelude::*;
use vstd::string::*;
use crate::text::{nat_digits, push_nat};

verus! {

/// Everything that can stop a replay, or fail one request of it.
#[derive(Debug)]
pub enum ReplayError {
    /// The input file name has no extension, or one that names no known format.
    UnsupportedInput { extension: Option<String> },
    /// The file system or a stream failed.
    IoFailure { detail: String },
    /// A timestamp does not have the shape `YYYY-MM-DDTHH:MM:SS.mmmZ`, or names no instant.
    BadTimestamp,
    /// A row or object of the input could not be decoded. `row` is its index
    /// among the rows or objects of the input; the header of a table is row zero.
    RecordDecode { row: usize },
    /// The host resolution is configured with neither or both modes, or the mapping is malformed.
    BadConfig,
    /// In mapping mode, a record names a domain that the mapping does not hold.
    Unmapped { domain_name: String },
    /// No record survived host resolution.
    EmptyPlan,
    /// One request failed on the network, or was answered with a status that
    /// is not of the success class.
    RequestFailure { url: String, cause: String },
    /// The user interrupted the dispatch.
    Aborted,
}

/// What the process reports to its caller when a run is over.
pub enum ExitStatus {
    /// The run went through.
    Clean,
    /// The user interrupted the run.
    Interrupted,
    /// The configuration, the input or the run failed.
    Failed,
}

impl ExitStatus {
    /// The process exit code that stands for the status.
    pub open spec fn spec_code(self) -> u8 {
        match self {
            ExitStatus::Clean => 0,
            ExitStatus::Interrupted => 130,
            ExitStatus::Failed => 1,
        }
    }

    /// The process exit code: zero only for a clean run, and one for an
    /// interrupt that no other failure shares.
    pub fn code(&self) -> (out: u8)
        ensures
            out == self.spec_code(),
            (out == 0) <==> (*self is Clean),
            (out == 130) <==> (*self is Interrupted),
    {
        match self {
            ExitStatus::Clean => 0,
            ExitStatus::Interrupted => 130,
            ExitStatus::Failed => 1,
        }
    }
}

impl ReplayError {
    /// The description of the error, as one line without line end.
    pub open spec fn spec_message(self) -> Seq<char> {
        match self {
            ReplayError::UnsupportedInput { extension: Some(extension) } => "Unknown file extension: "@
                + extension@,
            ReplayError::UnsupportedInput { extension: None } => "Can't determine file-type"@,
            ReplayError::IoFailure { detail } => "I/O failure: "@ + detail@,
            ReplayError::BadTimestamp => "Malformed timestamp"@,
            ReplayError::RecordDecode { row } => "Could not decode record "@ + nat_digits(row as nat),
            ReplayError::BadConfig =>
                "Exactly one of scheme_and_host and scheme_and_host_mapping_file must be provided"@,
            ReplayError::Unmapped { domain_name } => "No mapping found for domain_name: "@ + domain_name@,
            ReplayError::EmptyPlan => "No records in provided file"@,
            ReplayError::RequestFailure { url, cause } => "Request failed for "@ + url@ + ": "@ + cause@,
            ReplayError::Aborted => "Aborted with CTRL-C"@,
        }
    }

    /// The description of the error, as one line without line end.
    pub fn message(&self) -> (out: String)
        ensures
            out@ == self.spec_message(),
    {
        match self {
            ReplayError::UnsupportedInput { extension: Some(extension) } => {
                let mut out = "Unknown file extension: ".to_owned();
                out.append(extension.as_str());
                out
            },
            ReplayError::UnsupportedInput { extension: None } => "Can't determine file-type".to_owned(),
            ReplayError::IoFailure { detail } => {
                let mut out = "I/O failure: ".to_owned();
                out.append(detail.as_str());
                out
            },
            ReplayError::BadTimestamp => "Malformed timestamp".to_owned(),
            ReplayError::RecordDecode { row } => {
                let mut out = "Could not decode record ".to_owned();
                push_nat(&mut out, *row as u128);
                out
            },
            ReplayError::BadConfig =>
                "Exactly one of scheme_and_host and scheme_and_host_mapping_file must be provided".to_owned(),
            ReplayError::Unmapped { domain_name } => {
                let mut out = "No mapping found for domain_name: ".to_owned();
                out.append(domain_name.as_str());
                out
            },
            ReplayError::EmptyPlan => "No records in provided file".to_owned(),
            ReplayError::RequestFailure { url, cause } => {
                let mut out = "Request failed for ".to_owned();
                out.append(url.as_str());
                out.append(": ");
                out.append(cause.as_str());
                out
            },
            ReplayError::Aborted => "Aborted with CTRL-C".to_owned(),
        }
    }

    /// How a run that ended with this error exits: as interrupted where the
    /// user aborted it, as failed for any other error.
    pub open spec fn spec_exit_status(self) -> ExitStatus {
        if self is Aborted {
            ExitStatus::Interrupted
        } else {
            ExitStatus::Failed
        }
    }

    /// How a run that ended with this error exits.
    pub fn exit_status(&self) -> (out: ExitStatus)
        ensures
            out == self.spec_exit_status(),
    {
        match self {
            ReplayError::Aborted => ExitStatus::Interrupted,
            _ => ExitStatus::Failed,
        }
    }
}

} // verus!
