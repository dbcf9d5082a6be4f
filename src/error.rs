use vstd::prelude::*;

verus! {

/// Whose fault a failure is: the caller's (`User`, safe to show verbatim) or
/// the system's (`Internal`, for operators, possibly retried).
#[derive(Debug, Clone, Copy, PartialEq, Eq, Structural)]
pub enum CubeErrorCauseType {
    User,
    Internal,
}

/// The error type of the store: a message and its cause.
#[derive(Debug, Clone)]
pub struct CubeError {
    message: String,
    cause: CubeErrorCauseType,
}

/// The name under which a cause is shown.
pub open spec fn cause_name(c: CubeErrorCauseType) -> Seq<char> {
    match c {
        CubeErrorCauseType::User => seq!['U', 's', 'e', 'r'],
        CubeErrorCauseType::Internal => seq!['I', 'n', 't', 'e', 'r', 'n', 'a', 'l'],
    }
}

/// `msg` is the text that `v` shows through `Display`, as `to_string` gives it.
pub open spec fn displays_as<T: core::fmt::Display + ?Sized>(v: &T, msg: Seq<char>) -> bool {
    exists|s: String| vstd::string::to_string_from_display_ensures::<T>(v, s) && s@ == msg
}

/// The status code with which a front end answers an error: 400 for the
/// caller's fault, 500 for the system's.
pub open spec fn status_of(c: CubeErrorCauseType) -> u16 {
    match c {
        CubeErrorCauseType::User => 400,
        CubeErrorCauseType::Internal => 500,
    }
}

/// How an error is shown: `<cause>: <message>`.
pub open spec fn display_text(c: CubeErrorCauseType, message: Seq<char>) -> Seq<char> {
    cause_name(c) + seq![':', ' '] + message
}

impl CubeError {
    pub closed spec fn spec_message(&self) -> Seq<char> {
        self.message@
    }

    pub closed spec fn spec_cause(&self) -> CubeErrorCauseType {
        self.cause
    }

    /// An error caused by the caller.
    pub fn user(message: String) -> (r: CubeError)
        ensures
            r.spec_message() == message@,
            r.spec_cause() == CubeErrorCauseType::User,
    {
        CubeError { message, cause: CubeErrorCauseType::User }
    }

    /// An error caused by the system or a dependency.
    pub fn internal(message: String) -> (r: CubeError)
        ensures
            r.spec_message() == message@,
            r.spec_cause() == CubeErrorCauseType::Internal,
    {
        CubeError { message, cause: CubeErrorCauseType::Internal }
    }

    pub fn message(&self) -> (r: &str)
        ensures
            r@ == self.spec_message(),
    {
        self.message.as_str()
    }

    pub fn cause(&self) -> (r: CubeErrorCauseType)
        ensures
            r == self.spec_cause(),
    {
        self.cause
    }

    pub fn is_user(&self) -> (r: bool)
        ensures
            r == (self.spec_cause() == CubeErrorCauseType::User),
    {
        self.cause == CubeErrorCauseType::User
    }

    /// The error as text: the cause's name, a colon and a space, the message.
    pub fn to_display_string(&self) -> (r: String)
        ensures
            r@ == display_text(self.spec_cause(), self.spec_message()),
    {
        let mut s = match self.cause {
            CubeErrorCauseType::User => String::from_str("User"),
            CubeErrorCauseType::Internal => String::from_str("Internal"),
        };
        proof {
            reveal_strlit("User");
            reveal_strlit("Internal");
            reveal_strlit(": ");
        }
        s.append(": ");
        s.append(self.message.as_str());
        s
    }

    /// Wraps a date or time that failed to parse.
    pub fn from_chrono_parse(v: chrono::ParseError) -> (r: CubeError)
        ensures
            r.spec_cause() == CubeErrorCauseType::Internal,
            displays_as(&v, r.spec_message()),
    {
        CubeError::internal(v.to_string())
    }

    /// Wraps a decimal number that failed to parse.
    pub fn from_decimal_parse(v: bigdecimal::ParseBigDecimalError) -> (r: CubeError)
        ensures
            r.spec_cause() == CubeErrorCauseType::Internal,
            displays_as(&v, r.spec_message()),
    {
        CubeError::internal(v.to_string())
    }

    /// Wraps a failure to decode a flexbuffer.
    pub fn from_flexbuffers_de(v: flexbuffers::DeserializationError) -> (r: CubeError)
        ensures
            r.spec_cause() == CubeErrorCauseType::Internal,
            displays_as(&v, r.spec_message()),
    {
        CubeError::internal(v.to_string())
    }

    /// Wraps a failure to encode a flexbuffer.
    pub fn from_flexbuffers_ser(v: flexbuffers::SerializationError) -> (r: CubeError)
        ensures
            r.spec_cause() == CubeErrorCauseType::Internal,
            displays_as(&v, r.spec_message()),
    {
        CubeError::internal(v.to_string())
    }

    /// Wraps a SQL statement that failed to parse.
    pub fn from_sql_parse(v: sqlparser::parser::ParserError) -> (r: CubeError)
        ensures
            r.spec_cause() == CubeErrorCauseType::Internal,
            displays_as(&v, r.spec_message()),
    {
        CubeError::internal(v.to_string())
    }

    /// Wraps a background task that panicked or was cancelled.
    pub fn from_join(v: tokio::task::JoinError) -> (r: CubeError)
        ensures
            r.spec_cause() == CubeErrorCauseType::Internal,
            displays_as(&v, r.spec_message()),
    {
        CubeError::internal(v.to_string())
    }

    /// Wraps a deadline that passed.
    pub fn from_elapsed(v: tokio::time::error::Elapsed) -> (r: CubeError)
        ensures
            r.spec_cause() == CubeErrorCauseType::Internal,
            displays_as(&v, r.spec_message()),
    {
        CubeError::internal(v.to_string())
    }

    /// Wraps bytes that are not UTF-8.
    pub fn from_utf8(v: std::string::FromUtf8Error) -> (r: CubeError)
        ensures
            r.spec_cause() == CubeErrorCauseType::Internal,
            displays_as(&v, r.spec_message()),
    {
        CubeError::internal(v.to_string())
    }

    /// Wraps an I/O failure.
    pub fn from_io(v: std::io::Error) -> (r: CubeError)
        ensures
            r.spec_cause() == CubeErrorCauseType::Internal,
            displays_as(&v, r.spec_message()),
    {
        CubeError::internal(v.to_string())
    }

    /// Wraps a clock that went backwards.
    pub fn from_system_time(v: std::time::SystemTimeError) -> (r: CubeError)
        ensures
            r.spec_cause() == CubeErrorCauseType::Internal,
            displays_as(&v, r.spec_message()),
    {
        CubeError::internal(v.to_string())
    }

    /// Wraps a failed receive from a broadcast channel.
    pub fn from_broadcast_recv(v: tokio::sync::broadcast::error::RecvError) -> (r: CubeError)
        ensures
            r.spec_cause() == CubeErrorCauseType::Internal,
            displays_as(&v, r.spec_message()),
    {
        CubeError::internal(v.to_string())
    }

    /// Wraps an event that a broadcast channel could not deliver.
    pub fn from_event_send(
        v: tokio::sync::broadcast::error::SendError<crate::events::MetaStoreEvent>,
    ) -> (r: CubeError)
        ensures
            r.spec_cause() == CubeErrorCauseType::Internal,
            displays_as(&v, r.spec_message()),
    {
        CubeError::internal(v.to_string())
    }

    /// Wraps a failure of the columnar in-memory format.
    pub fn from_arrow(v: arrow::error::ArrowError) -> (r: CubeError)
        ensures
            r.spec_cause() == CubeErrorCauseType::Internal,
            displays_as(&v, r.spec_message()),
    {
        CubeError::internal(v.to_string())
    }

    /// Wraps a failure to read or write a columnar file.
    pub fn from_parquet(v: parquet::errors::ParquetError) -> (r: CubeError)
        ensures
            r.spec_cause() == CubeErrorCauseType::Internal,
            displays_as(&v, r.spec_message()),
    {
        CubeError::internal(v.to_string())
    }

    /// Wraps a failure of the object-store client.
    pub fn from_object_store(v: s3::error::S3Error) -> (r: CubeError)
        ensures
            r.spec_cause() == CubeErrorCauseType::Internal,
            displays_as(&v, r.spec_message()),
    {
        CubeError::internal(v.to_string())
    }

    /// Wraps a failure of the query engine.
    pub fn from_datafusion(v: datafusion::error::DataFusionError) -> (r: CubeError)
        ensures
            r.spec_cause() == CubeErrorCauseType::Internal,
            displays_as(&v, r.spec_message()),
    {
        CubeError::internal(v.to_string())
    }

    /// The query engine's execution error that carries this error's text.
    pub fn to_datafusion(&self) -> (r: datafusion::error::DataFusionError)
        ensures
            r == execution_error_of(display_text(self.spec_cause(), self.spec_message())),
    {
        execution_error(self.to_display_string())
    }

    /// The HTTP status with which a front end answers this error, so that
    /// the caller's faults stay apart from the system's.
    pub fn http_status(&self) -> (r: u16)
        ensures
            r == status_of(self.spec_cause()),
    {
        match self.cause {
            CubeErrorCauseType::User => 400,
            CubeErrorCauseType::Internal => 500,
        }
    }

    /// Wraps a metastore event that a queue could not take: its receiver is
    /// gone.
    pub fn from_event_queue_send(
        v: tokio::sync::mpsc::error::SendError<crate::events::MetaStoreEvent>,
    ) -> (r: CubeError)
        ensures
            r.spec_cause() == CubeErrorCauseType::Internal,
            displays_as(&v, r.spec_message()),
    {
        CubeError::internal(v.to_string())
    }

    /// Wraps credentials that could not be found or read: a configuration
    /// fault of the caller.
    pub fn from_credentials(v: awscreds::error::CredentialsError) -> (r: CubeError)
        ensures
            r.spec_cause() == CubeErrorCauseType::User,
            displays_as(&v, r.spec_message()),
    {
        CubeError::user(v.to_string())
    }

    /// Wraps a storage region that is not known: a configuration fault of the
    /// caller.
    pub fn from_region(v: awsregion::error::RegionError) -> (r: CubeError)
        ensures
            r.spec_cause() == CubeErrorCauseType::User,
            displays_as(&v, r.spec_message()),
    {
        CubeError::user(v.to_string())
    }
}

#[verifier::external_type_specification]
#[verifier::external_body]
pub struct ExChronoParseError(chrono::ParseError);

#[verifier::external_type_specification]
#[verifier::external_body]
pub struct ExParseBigDecimalError(bigdecimal::ParseBigDecimalError);

#[verifier::external_type_specification]
#[verifier::external_body]
pub struct ExDeserializationError(flexbuffers::DeserializationError);

#[verifier::external_type_specification]
#[verifier::external_body]
pub struct ExSerializationError(flexbuffers::SerializationError);

#[verifier::external_type_specification]
#[verifier::external_body]
pub struct ExParserError(sqlparser::parser::ParserError);

#[verifier::external_type_specification]
#[verifier::external_body]
pub struct ExJoinError(tokio::task::JoinError);

#[verifier::external_type_specification]
#[verifier::external_body]
pub struct ExElapsed(tokio::time::error::Elapsed);

#[verifier::external_type_specification]
#[verifier::external_body]
pub struct ExFromUtf8Error(std::string::FromUtf8Error);

#[verifier::external_type_specification]
#[verifier::external_body]
pub struct ExCredentialsError(awscreds::error::CredentialsError);

#[verifier::external_type_specification]
#[verifier::external_body]
pub struct ExRegionError(awsregion::error::RegionError);

#[verifier::external_type_specification]
#[verifier::external_body]
pub struct ExIoError(std::io::Error);

#[verifier::external_type_specification]
#[verifier::external_body]
pub struct ExSystemTimeError(std::time::SystemTimeError);

#[verifier::external_type_specification]
#[verifier::external_body]
pub struct ExRecvError(tokio::sync::broadcast::error::RecvError);

#[verifier::external_type_specification]
#[verifier::external_body]
#[verifier::reject_recursive_types(T)]
pub struct ExSendError<T>(tokio::sync::broadcast::error::SendError<T>);

#[verifier::external_type_specification]
#[verifier::external_body]
pub struct ExArrowError(arrow::error::ArrowError);

#[verifier::external_type_specification]
#[verifier::external_body]
pub struct ExParquetError(parquet::errors::ParquetError);

#[verifier::external_type_specification]
#[verifier::external_body]
#[verifier::reject_recursive_types(T)]
pub struct ExQueueSendError<T>(tokio::sync::mpsc::error::SendError<T>);

#[verifier::external_type_specification]
#[verifier::external_body]
pub struct ExS3Error(s3::error::S3Error);

#[verifier::external_type_specification]
#[verifier::external_body]
pub struct ExDataFusionError(datafusion::error::DataFusionError);

/// The query engine's execution error that carries message `m`.
pub uninterp spec fn execution_error_of(m: Seq<char>) -> datafusion::error::DataFusionError;

/// Relies on the query engine's `DataFusionError::Execution` variant, which
/// carries a message and is a function of it alone.
#[verifier::external_body]
fn execution_error(message: String) -> (r: datafusion::error::DataFusionError)
    ensures
        r == execution_error_of(message@),
{
    datafusion::error::DataFusionError::Execution(message)
}

} // verus!
