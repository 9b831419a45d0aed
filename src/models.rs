//! Request, response and error types shared by the store and its callers.

use std::collections::HashMap;
use vstd::prelude::*;
use vstd::string::StringExecFns;

verus! {

/// How two vectors are compared.
#[derive(Debug, Clone, Copy, PartialEq, Eq, Structural)]
pub enum DistanceMetric {
    /// Cosine similarity: 1 for the same direction, 0 for orthogonal, -1 for opposite.
    Cosine,
    /// Euclidean distance: 0 for identical vectors, larger for more different ones.
    Euclidean,
    /// Dot product: higher for more similar (normalized) vectors.
    Dot,
}

/// The lower-case name by which clients select a metric.
pub open spec fn metric_name(m: DistanceMetric) -> Seq<char> {
    match m {
        DistanceMetric::Cosine => "cosine"@,
        DistanceMetric::Euclidean => "euclidean"@,
        DistanceMetric::Dot => "dot"@,
    }
}

/// The metric that a client's name selects, if any.
pub open spec fn metric_of_name(s: Seq<char>) -> Option<DistanceMetric> {
    if s == "cosine"@ {
        Some(DistanceMetric::Cosine)
    } else if s == "euclidean"@ {
        Some(DistanceMetric::Euclidean)
    } else if s == "dot"@ {
        Some(DistanceMetric::Dot)
    } else {
        None
    }
}

impl DistanceMetric {
    /// The lower-case name of this metric.
    pub fn name(&self) -> (r: &'static str)
        ensures
            r@ == metric_name(*self),
    {
        match self {
            DistanceMetric::Cosine => "cosine",
            DistanceMetric::Euclidean => "euclidean",
            DistanceMetric::Dot => "dot",
        }
    }

    /// The metric whose lower-case name is `s`; names are matched exactly.
    pub fn from_name(s: &str) -> (r: Option<DistanceMetric>)
        ensures
            r == metric_of_name(s@),
    {
        let given = String::from_str(s);
        if given == String::from_str("cosine") {
            Some(DistanceMetric::Cosine)
        } else if given == String::from_str("euclidean") {
            Some(DistanceMetric::Euclidean)
        } else if given == String::from_str("dot") {
            Some(DistanceMetric::Dot)
        } else {
            None
        }
    }
}

/// Every metric is selected by its own name.
pub proof fn lemma_metric_names(m: DistanceMetric)
    ensures
        metric_of_name(metric_name(m)) == Some(m),
{
    reveal_strlit("cosine");
    reveal_strlit("euclidean");
    reveal_strlit("dot");
    assert("cosine"@.len() == 6);
    assert("euclidean"@.len() == 9);
    assert("dot"@.len() == 3);
}

/// The decimal digit `d`.
pub open spec fn digit_text(d: nat) -> Seq<char> {
    if d == 0 {
        "0"@
    } else if d == 1 {
        "1"@
    } else if d == 2 {
        "2"@
    } else if d == 3 {
        "3"@
    } else if d == 4 {
        "4"@
    } else if d == 5 {
        "5"@
    } else if d == 6 {
        "6"@
    } else if d == 7 {
        "7"@
    } else if d == 8 {
        "8"@
    } else {
        "9"@
    }
}

/// The decimal representation of `n`, without leading zeros.
pub open spec fn decimal(n: nat) -> Seq<char>
    decreases n,
{
    if n < 10 {
        digit_text(n)
    } else {
        decimal(n / 10) + digit_text(n % 10)
    }
}

fn digit_str(d: usize) -> (r: &'static str)
    requires
        d < 10,
    ensures
        r@ == digit_text(d as nat),
{
    if d == 0 {
        "0"
    } else if d == 1 {
        "1"
    } else if d == 2 {
        "2"
    } else if d == 3 {
        "3"
    } else if d == 4 {
        "4"
    } else if d == 5 {
        "5"
    } else if d == 6 {
        "6"
    } else if d == 7 {
        "7"
    } else if d == 8 {
        "8"
    } else {
        "9"
    }
}

/// Writes `n` in decimal.
pub fn to_decimal(n: usize) -> (r: String)
    ensures
        r@ == decimal(n as nat),
    decreases n,
{
    if n < 10 {
        String::from_str(digit_str(n))
    } else {
        let mut s = to_decimal(n / 10);
        s.append(digit_str(n % 10));
        s
    }
}

/// Errors of the vector database.
#[derive(Debug)]
pub enum VectorDbError {
    /// A query vector has no components.
    EmptyVector,
    /// Two vectors that must agree in length do not.
    DimensionMismatch { expected: usize, got: usize },
    /// No vector or collection has this identifier.
    NotFound(String),
    /// A collection with this identifier exists already.
    AlreadyExists(String),
    /// A parameter has a value that is not accepted.
    InvalidParameter(String),
    /// File or other storage failure.
    IoError(std::io::Error),
    /// A value could not be serialized.
    SerializationError(String),
}

/// The message of an error that is not an `IoError`; of an `IoError`, the
/// words that open its message.
pub open spec fn error_message(e: VectorDbError) -> Seq<char> {
    match e {
        VectorDbError::EmptyVector => "Vector cannot be empty"@,
        VectorDbError::DimensionMismatch { expected, got } => "Dimension mismatch: expected "@
            + decimal(expected as nat) + ", got "@ + decimal(got as nat),
        VectorDbError::NotFound(id) => "Not found: "@ + id@,
        VectorDbError::AlreadyExists(id) => "Already exists: "@ + id@,
        VectorDbError::InvalidParameter(msg) => "Invalid parameter: "@ + msg@,
        VectorDbError::IoError(_) => "I/O error: "@,
        VectorDbError::SerializationError(msg) => "Serialization error: "@ + msg@,
    }
}

impl VectorDbError {
    /// A message for people. For an `IoError` it is followed by the
    /// platform's description of the failure.
    pub fn to_string(&self) -> (r: String)
        ensures
            !(self is IoError) ==> r@ == error_message(*self),
            self is IoError ==> exists|t: Seq<char>| r@ == error_message(*self) + t,
    {
        match self {
            VectorDbError::EmptyVector => String::from_str("Vector cannot be empty"),
            VectorDbError::DimensionMismatch { expected, got } => {
                let mut s = String::from_str("Dimension mismatch: expected ");
                let e = to_decimal(*expected);
                s.append(e.as_str());
                s.append(", got ");
                let g = to_decimal(*got);
                s.append(g.as_str());
                s
            },
            VectorDbError::NotFound(id) => String::from_str("Not found: ").concat(id.as_str()),
            VectorDbError::AlreadyExists(id) => String::from_str("Already exists: ").concat(
                id.as_str(),
            ),
            VectorDbError::InvalidParameter(msg) => String::from_str("Invalid parameter: ").concat(
                msg.as_str(),
            ),
            VectorDbError::IoError(e) => {
                let cause = e.to_string();
                let r = String::from_str("I/O error: ").concat(cause.as_str());
                assert(r@ == error_message(*self) + cause@);
                r
            },
            VectorDbError::SerializationError(msg) => String::from_str(
                "Serialization error: ",
            ).concat(msg.as_str()),
        }
    }
}

impl From<std::io::Error> for VectorDbError {
    fn from(err: std::io::Error) -> (r: VectorDbError)
        ensures
            r == VectorDbError::IoError(err),
    {
        VectorDbError::IoError(err)
    }
}

impl vstd::std_specs::convert::FromSpecImpl<std::io::Error> for VectorDbError {
    open spec fn obeys_from_spec() -> bool {
        true
    }

    open spec fn from_spec(v: std::io::Error) -> VectorDbError {
        VectorDbError::IoError(v)
    }
}

/// The number of results a search returns when the request names none.
pub fn default_top_k() -> (r: usize)
    ensures
        r == 10,
{
    10
}

/// Parameters of a similarity search. The query's components are the bit
/// patterns of single-precision floats.
#[derive(Debug, Clone)]
pub struct SearchRequest {
    pub vector: Vec<u32>,
    pub top_k: usize,
    pub metric: DistanceMetric,
    pub filter: Option<HashMap<String, String>>,
}

impl SearchRequest {
    /// A request by cosine similarity, without a tag filter.
    pub fn new(vector: Vec<u32>, top_k: usize) -> (r: SearchRequest)
        ensures
            r.vector == vector,
            r.top_k == top_k,
            r.metric == DistanceMetric::Cosine,
            r.filter is None,
    {
        SearchRequest { vector, top_k, metric: DistanceMetric::Cosine, filter: None }
    }

    /// The same request, by `metric`.
    pub fn with_metric(self, metric: DistanceMetric) -> (r: SearchRequest)
        ensures
            r.vector == self.vector,
            r.top_k == self.top_k,
            r.metric == metric,
            r.filter == self.filter,
    {
        let mut req = self;
        req.metric = metric;
        req
    }

    /// The same request, keeping only vectors whose tags match `filter`.
    pub fn with_filter(self, filter: HashMap<String, String>) -> (r: SearchRequest)
        ensures
            r.vector == self.vector,
            r.top_k == self.top_k,
            r.metric == self.metric,
            r.filter == Some(filter),
    {
        let mut req = self;
        req.filter = Some(filter);
        req
    }
}

/// The envelope of every API answer.
#[derive(Debug)]
pub struct ApiResponse<T> {
    pub success: bool,
    pub data: Option<T>,
    pub error: Option<String>,
}

impl<T> ApiResponse<T> {
    /// A successful answer carrying `data`.
    pub fn ok(data: T) -> (r: ApiResponse<T>)
        ensures
            r.success,
            r.data == Some(data),
            r.error is None,
    {
        ApiResponse { success: true, data: Some(data), error: None }
    }
}

impl ApiResponse<()> {
    /// A failed answer carrying `message`.
    pub fn err(message: &str) -> (r: ApiResponse<()>)
        ensures
            !r.success,
            r.data is None,
            r.error is Some,
            r.error->Some_0@ == message@,
    {
        ApiResponse { success: false, data: None, error: Some(String::from_str(message)) }
    }
}

} // verus!
