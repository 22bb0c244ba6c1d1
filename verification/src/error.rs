//! The errors of queries, with the labels under which they are reported.

use crate::attribute::SnapshotIteratorError;
use crate::pattern::FunctionID;
use crate::pipeline::ExecutableCompilationError;
use crate::registry::RepresentationError;
use crate::write::WriteCompilationError;
use vstd::prelude::*;

verus! {

/// The number of an error of executable compilation within its component.
pub open spec fn executable_compilation_code(error: ExecutableCompilationError) -> u8 {
    match error {
        ExecutableCompilationError::InsertExecutableCompilation { .. } => 1,
        ExecutableCompilationError::DeleteExecutableCompilation { .. } => 2,
        ExecutableCompilationError::FetchCompilation { .. } => 3,
    }
}

/// The message of an error of executable compilation.
pub open spec fn executable_compilation_description(error: ExecutableCompilationError) -> Seq<
    char,
> {
    match error {
        ExecutableCompilationError::InsertExecutableCompilation {
            ..
        } => "Error compiling insert clause into executable."@,
        ExecutableCompilationError::DeleteExecutableCompilation {
            ..
        } => "Error compiling delete clause into executable."@,
        ExecutableCompilationError::FetchCompilation {
            ..
        } => "Error compiling fetch clause into executable."@,
    }
}

impl ExecutableCompilationError {
    /// The component that reports the error.
    pub fn component(&self) -> (component: &'static str)
        ensures
            component@ == "Query executable"@,
    {
        "Query executable"
    }

    /// The prefix of the codes of the component.
    pub fn prefix(&self) -> (prefix: &'static str)
        ensures
            prefix@ == "QEE"@,
    {
        "QEE"
    }

    /// The number of the error within its component.
    pub fn code_number(&self) -> (number: u8)
        ensures
            number == executable_compilation_code(*self),
    {
        match self {
            ExecutableCompilationError::InsertExecutableCompilation { .. } => 1,
            ExecutableCompilationError::DeleteExecutableCompilation { .. } => 2,
            ExecutableCompilationError::FetchCompilation { .. } => 3,
        }
    }

    /// The message of the error.
    pub fn description(&self) -> (description: &'static str)
        ensures
            description@ == executable_compilation_description(*self),
    {
        match self {
            ExecutableCompilationError::InsertExecutableCompilation {
                ..
            } => "Error compiling insert clause into executable.",
            ExecutableCompilationError::DeleteExecutableCompilation {
                ..
            } => "Error compiling delete clause into executable.",
            ExecutableCompilationError::FetchCompilation {
                ..
            } => "Error compiling fetch clause into executable.",
        }
    }
}

/// A failed lookup of a single key of the storage.
#[derive(Debug, Clone, Copy, PartialEq, Eq, Structural)]
pub struct SnapshotGetError {
    pub code: u32,
}

/// Why a function cannot be read from the schema.
#[derive(Debug, Clone, Copy, PartialEq, Eq, Structural)]
pub enum FunctionReadError {
    FunctionNotFound { function_id: FunctionID },
    FunctionRetrieval { source: SnapshotGetError },
    FunctionsScan { source: SnapshotIteratorError },
}

/// The failure of the storage behind a failure to read a function.
#[derive(Debug, Clone, Copy, PartialEq, Eq, Structural)]
pub enum FunctionReadErrorSource {
    Get(SnapshotGetError),
    Iterate(SnapshotIteratorError),
}

impl FunctionReadError {
    /// The failure of the storage that caused the error, if one did.
    pub fn source(&self) -> (source: Option<FunctionReadErrorSource>)
        ensures
            source == (match *self {
                FunctionReadError::FunctionRetrieval { source } => Some(
                    FunctionReadErrorSource::Get(source),
                ),
                FunctionReadError::FunctionsScan { source } => Some(
                    FunctionReadErrorSource::Iterate(source),
                ),
                FunctionReadError::FunctionNotFound { .. } => None,
            }),
    {
        match self {
            FunctionReadError::FunctionRetrieval { source } => Some(
                FunctionReadErrorSource::Get(*source),
            ),
            FunctionReadError::FunctionsScan { source } => Some(
                FunctionReadErrorSource::Iterate(*source),
            ),
            FunctionReadError::FunctionNotFound { .. } => None,
        }
    }
}

/// Why the text of a function cannot be turned into its representation.
#[derive(Debug, Clone)]
pub enum FunctionRepresentationError {
    FunctionArgumentUnused { argument_variable: String, declaration: String },
    StreamReturnVariableUnavailable { return_variable: String, declaration: String },
    SingleReturnVariableUnavailable { return_variable: String, declaration: String },
    BlockDefinition { declaration: String },
    ReturnReduction { declaration: String },
    IllegalFetch { declaration: String },
    IllegalStages { declaration: String },
    InconsistentReturn { signature: String, return_: String },
    IllegalKeywordAsIdentifier { identifier: String },
}

/// The number of an error of function representation within its component.
pub open spec fn function_representation_code(error: FunctionRepresentationError) -> u8 {
    match error {
        FunctionRepresentationError::FunctionArgumentUnused { .. } => 1,
        FunctionRepresentationError::StreamReturnVariableUnavailable { .. } => 2,
        FunctionRepresentationError::SingleReturnVariableUnavailable { .. } => 3,
        FunctionRepresentationError::BlockDefinition { .. } => 4,
        FunctionRepresentationError::ReturnReduction { .. } => 5,
        FunctionRepresentationError::IllegalFetch { .. } => 6,
        FunctionRepresentationError::IllegalStages { .. } => 7,
        FunctionRepresentationError::InconsistentReturn { .. } => 8,
        FunctionRepresentationError::IllegalKeywordAsIdentifier { .. } => 9,
    }
}

impl FunctionRepresentationError {
    /// The component that reports the error.
    pub fn component(&self) -> (component: &'static str)
        ensures
            component@ == "Function representation"@,
    {
        "Function representation"
    }

    /// The prefix of the codes of the component.
    pub fn prefix(&self) -> (prefix: &'static str)
        ensures
            prefix@ == "FNR"@,
    {
        "FNR"
    }

    /// The number of the error within its component.
    pub fn code_number(&self) -> (number: u8)
        ensures
            number == function_representation_code(*self),
    {
        match self {
            FunctionRepresentationError::FunctionArgumentUnused { .. } => 1,
            FunctionRepresentationError::StreamReturnVariableUnavailable { .. } => 2,
            FunctionRepresentationError::SingleReturnVariableUnavailable { .. } => 3,
            FunctionRepresentationError::BlockDefinition { .. } => 4,
            FunctionRepresentationError::ReturnReduction { .. } => 5,
            FunctionRepresentationError::IllegalFetch { .. } => 6,
            FunctionRepresentationError::IllegalStages { .. } => 7,
            FunctionRepresentationError::InconsistentReturn { .. } => 8,
            FunctionRepresentationError::IllegalKeywordAsIdentifier { .. } => 9,
        }
    }
}

/// Why a query fails.
#[derive(Debug, Clone)]
pub enum QueryError {
    ParseError { query: String },
    Define,
    Redefine,
    Undefine,
    FunctionDefinition,
    Representation { source: RepresentationError },
    Annotation,
    ExecutableCompilation { source: ExecutableCompilationError },
    WriteCompilation { source: WriteCompilationError },
    ExpressionCompilation,
    Pipeline,
    WritePipelineExecution,
    ReadPipelineExecution,
    QueryExecutionClosedEarly,
}

/// The number of an error of query execution within its component.
pub open spec fn query_code(error: QueryError) -> u8 {
    match error {
        QueryError::ParseError { .. } => 1,
        QueryError::Define => 2,
        QueryError::Redefine => 3,
        QueryError::Undefine => 4,
        QueryError::FunctionDefinition => 5,
        QueryError::Representation { .. } => 7,
        QueryError::Annotation => 8,
        QueryError::ExecutableCompilation { .. } => 9,
        QueryError::WriteCompilation { .. } => 10,
        QueryError::ExpressionCompilation => 11,
        QueryError::Pipeline => 12,
        QueryError::WritePipelineExecution => 13,
        QueryError::ReadPipelineExecution => 14,
        QueryError::QueryExecutionClosedEarly => 15,
    }
}

impl QueryError {
    /// The component that reports the error.
    pub fn component(&self) -> (component: &'static str)
        ensures
            component@ == "Query execution"@,
    {
        "Query execution"
    }

    /// The prefix of the codes of the component.
    pub fn prefix(&self) -> (prefix: &'static str)
        ensures
            prefix@ == "QEX"@,
    {
        "QEX"
    }

    /// The number of the error within its component.
    pub fn code_number(&self) -> (number: u8)
        ensures
            number == query_code(*self),
    {
        match self {
            QueryError::ParseError { .. } => 1,
            QueryError::Define => 2,
            QueryError::Redefine => 3,
            QueryError::Undefine => 4,
            QueryError::FunctionDefinition => 5,
            QueryError::Representation { .. } => 7,
            QueryError::Annotation => 8,
            QueryError::ExecutableCompilation { .. } => 9,
            QueryError::WriteCompilation { .. } => 10,
            QueryError::ExpressionCompilation => 11,
            QueryError::Pipeline => 12,
            QueryError::WritePipelineExecution => 13,
            QueryError::ReadPipelineExecution => 14,
            QueryError::QueryExecutionClosedEarly => 15,
        }
    }
}

} // verus!
