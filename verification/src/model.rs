//! The in-memory OTLP document model and the row types derived from it.
//!
//! Identifiers are raw byte strings as they appear on the wire; instants
//! are 64-bit unsigned nanosecond counts since the Unix epoch. A double
//! in the attribute union arrives already rendered as its canonical
//! text, since this crate holds no floating-point values.

use vstd::prelude::*;

use crate::codec::hex_of;

verus! {

/// The error taxonomy of the backend, one variant per externally
/// observable failure class.
#[derive(Clone, Copy, Debug, PartialEq, Eq, Structural)]
pub enum ErrorKind {
    /// An ingestion content type that is not recognized.
    UnsupportedMediaType,
    /// A wire payload that does not parse as the declared schema.
    DecodeError,
    /// A trace or span id of the wrong length, or an unparseable
    /// timestamp.
    InvalidIdentifier,
    /// A database failure inside the write transaction.
    StorageError,
    /// A query naming a column outside the whitelist, or otherwise
    /// malformed.
    InvalidQuery,
    /// A single-entity lookup that matched nothing.
    NotFound,
}

/// A span status code as declared on the wire.
#[derive(Clone, Copy, Debug, PartialEq, Eq, Structural)]
pub enum StatusCode {
    Unset,
    Okay,
    Error,
}

/// A span kind as declared on the wire.
#[derive(Clone, Copy, Debug, PartialEq, Eq, Structural)]
pub enum SpanKind {
    Unspecified,
    Internal,
    Server,
    Client,
    Producer,
    Consumer,
}

/// A span kind as stored.
#[derive(Clone, Copy, Debug, PartialEq, Eq, Structural)]
pub enum DbSpanKind {
    Unspecified,
    Internal,
    Server,
    Client,
    Producer,
    Consumer,
}

/// One attribute: a key and an optional value from the typed union.
pub struct KeyValue {
    pub key: String,
    pub value: Option<AnyValue>,
}

/// The OTLP typed value union. A double arrives as its canonical
/// rendered text; bytes are raw.
pub enum AnyValue {
    StringValue(String),
    BoolValue(bool),
    IntValue(i64),
    DoubleValue(String),
    ArrayValue(ArrayValue),
    KvlistValue(KvListValue),
    BytesValue(Vec<u8>),
}

/// A homogeneous-free list of union values.
pub struct ArrayValue {
    pub values: Vec<AnyValue>,
}

/// An ordered key-value list inside the union.
pub struct KvListValue {
    pub values: Vec<KeyValue>,
}

/// A span's declared outcome.
pub struct Status {
    pub code: Option<StatusCode>,
    pub message: Option<String>,
}

/// The named scope a span or log record was emitted under.
pub struct InstrumentationScope {
    pub name: Option<String>,
    pub version: Option<String>,
}

/// The resource an export batch describes, with its attributes.
pub struct Resource {
    pub attributes: Vec<KeyValue>,
}

/// One timed operation of a trace.
pub struct Span {
    pub trace_id: Vec<u8>,
    pub span_id: Vec<u8>,
    pub parent_span_id: Vec<u8>,
    pub name: String,
    pub kind: i32,
    pub start_time_unix_nano: u64,
    pub end_time_unix_nano: u64,
    pub attributes: Vec<KeyValue>,
    pub status: Option<Status>,
}

/// The spans of one instrumentation scope.
pub struct ScopeSpans {
    pub scope: Option<InstrumentationScope>,
    pub spans: Vec<Span>,
}

/// The scopes of one resource.
pub struct ResourceSpans {
    pub resource: Option<Resource>,
    pub scope_spans: Vec<ScopeSpans>,
}

/// A decoded OTLP trace-export request.
pub struct TracesRequest {
    pub resource_spans: Vec<ResourceSpans>,
}

/// One log record.
pub struct LogRecord {
    pub time_unix_nano: u64,
    pub observed_time_unix_nano: u64,
    pub severity_number: i32,
    pub severity_text: String,
    pub body: Option<AnyValue>,
    pub attributes: Vec<KeyValue>,
    pub trace_id: Vec<u8>,
    pub span_id: Vec<u8>,
}

/// The log records of one instrumentation scope.
pub struct ScopeLogs {
    pub scope: Option<InstrumentationScope>,
    pub log_records: Vec<LogRecord>,
}

/// The scopes of one resource, log side.
pub struct ResourceLogs {
    pub resource: Option<Resource>,
    pub scope_logs: Vec<ScopeLogs>,
}

/// A decoded OTLP logs-export request.
pub struct LogsRequest {
    pub resource_logs: Vec<ResourceLogs>,
}

/// The stored numeric form of a status code.
pub open spec fn status_code_num(c: StatusCode) -> int {
    match c {
        StatusCode::Unset => 0,
        StatusCode::Okay => 1,
        StatusCode::Error => 2,
    }
}

/// The difference `end - start`, reduced into the range of a signed
/// 64-bit count the way a two's-complement subtraction would reduce
/// it. A difference that fits is carried through exactly.
pub open spec fn wrap_diff_i64(end: u64, start: u64) -> int {
    let d = end - start;
    if d > i64::MAX {
        d - 0x1_0000_0000_0000_0000
    } else if d < i64::MIN {
        d + 0x1_0000_0000_0000_0000
    } else {
        d
    }
}

impl Span {
    /// The stored identity of the trace this span belongs to: the raw
    /// id hex-encoded, after checking it is exactly 16 bytes.
    pub fn trace_id_hex(&self) -> (r: Result<String, ErrorKind>)
        ensures
            match r {
                Ok(h) => self.trace_id@.len() == 16 && h@ == hex_of(self.trace_id@),
                Err(e) => self.trace_id@.len() != 16 && e == ErrorKind::InvalidIdentifier,
            },
    {
        if self.trace_id.len() != crate::TRACE_ID_LEN {
            return Err(ErrorKind::InvalidIdentifier);
        }
        Ok(crate::codec::hex_encode(&self.trace_id))
    }

    /// The stored identity of this span: the raw id hex-encoded, after
    /// checking it is exactly 8 bytes.
    pub fn span_id_hex(&self) -> (r: Result<String, ErrorKind>)
        ensures
            match r {
                Ok(h) => self.span_id@.len() == 8 && h@ == hex_of(self.span_id@),
                Err(e) => self.span_id@.len() != 8 && e == ErrorKind::InvalidIdentifier,
            },
    {
        if self.span_id.len() != crate::SPAN_ID_LEN {
            return Err(ErrorKind::InvalidIdentifier);
        }
        Ok(crate::codec::hex_encode(&self.span_id))
    }

    /// The parent span id hex-encoded; an empty raw id means a root
    /// span and yields nothing.
    pub fn parent_span_id_hex(&self) -> (r: Option<String>)
        ensures
            match r {
                Some(h) => self.parent_span_id@.len() > 0 && h@ == hex_of(self.parent_span_id@),
                None => self.parent_span_id@.len() == 0,
            },
    {
        if self.parent_span_id.len() == 0 {
            None
        } else {
            Some(crate::codec::hex_encode(&self.parent_span_id))
        }
    }

    /// The span's duration in nanoseconds, as the signed 64-bit
    /// reduction of `end - start`; malformed input with `end < start`
    /// is carried through as a negative count, never coerced.
    pub fn duration_ns(&self) -> (r: i64)
        ensures
            r as int == wrap_diff_i64(self.end_time_unix_nano, self.start_time_unix_nano),
    {
        let d: i128 = self.end_time_unix_nano as i128 - self.start_time_unix_nano as i128;
        if d > i64::MAX as i128 {
            (d - 0x1_0000_0000_0000_0000i128) as i64
        } else if d < i64::MIN as i128 {
            (d + 0x1_0000_0000_0000_0000i128) as i64
        } else {
            d as i64
        }
    }

    /// The stored numeric status code; absent status or code reads as
    /// unset.
    pub fn status_code(&self) -> (r: i32)
        ensures
            r as int == match self.status {
                Some(ref s) => match s.code {
                    Some(c) => status_code_num(c),
                    None => 0,
                },
                None => 0,
            },
    {
        match &self.status {
            Some(s) => match s.code {
                Some(StatusCode::Unset) => 0,
                Some(StatusCode::Okay) => 1,
                Some(StatusCode::Error) => 2,
                None => 0,
            },
            None => 0,
        }
    }

    /// The status message, with an absent or empty message reading as
    /// none.
    pub fn status_message(&self) -> (r: Option<String>)
        ensures
            match r {
                Some(m) => {
                    &&& self.status is Some
                    &&& self.status->Some_0.message is Some
                    &&& m@ == self.status->Some_0.message->Some_0@
                    &&& m@.len() > 0
                },
                None => self.status is None || self.status->Some_0.message is None
                    || self.status->Some_0.message->Some_0@.len() == 0,
            },
    {
        match &self.status {
            Some(s) => match &s.message {
                Some(m) => {
                    if m.as_str().unicode_len() == 0 {
                        None
                    } else {
                        Some(m.clone())
                    }
                },
                None => None,
            },
            None => None,
        }
    }

    /// The stored kind for this span's declared numeric kind; unknown
    /// numbers read as unspecified.
    pub fn span_kind_to_db(&self) -> (r: DbSpanKind)
        ensures
            r == span_kind_db_of(self.kind as int),
    {
        match self.kind {
            1 => DbSpanKind::Internal,
            2 => DbSpanKind::Server,
            3 => DbSpanKind::Client,
            4 => DbSpanKind::Producer,
            5 => DbSpanKind::Consumer,
            _ => DbSpanKind::Unspecified,
        }
    }
}

/// The declared numeric form of a wire span kind, as the binary wire
/// format carries it.
pub fn span_kind_number(k: SpanKind) -> (r: i32)
    ensures
        span_kind_db_of(r as int) == match k {
            SpanKind::Unspecified => DbSpanKind::Unspecified,
            SpanKind::Internal => DbSpanKind::Internal,
            SpanKind::Server => DbSpanKind::Server,
            SpanKind::Client => DbSpanKind::Client,
            SpanKind::Producer => DbSpanKind::Producer,
            SpanKind::Consumer => DbSpanKind::Consumer,
        },
{
    match k {
        SpanKind::Unspecified => 0,
        SpanKind::Internal => 1,
        SpanKind::Server => 2,
        SpanKind::Client => 3,
        SpanKind::Producer => 4,
        SpanKind::Consumer => 5,
    }
}

/// The stored kind for a declared numeric span kind.
pub open spec fn span_kind_db_of(k: int) -> DbSpanKind {
    if k == 1 {
        DbSpanKind::Internal
    } else if k == 2 {
        DbSpanKind::Server
    } else if k == 3 {
        DbSpanKind::Client
    } else if k == 4 {
        DbSpanKind::Producer
    } else if k == 5 {
        DbSpanKind::Consumer
    } else {
        DbSpanKind::Unspecified
    }
}

impl LogRecord {
    /// The trace correlation of this record: the id hex-encoded when
    /// it is exactly 16 bytes, nothing when it is absent or malformed.
    pub fn trace_id_hex(&self) -> (r: Option<String>)
        ensures
            match r {
                Some(h) => self.trace_id@.len() == 16 && h@ == hex_of(self.trace_id@),
                None => self.trace_id@.len() != 16,
            },
    {
        if self.trace_id.len() == 16 {
            Some(crate::codec::hex_encode(&self.trace_id))
        } else {
            None
        }
    }

    /// The span correlation of this record: the id hex-encoded when it
    /// is exactly 8 bytes, nothing when it is absent or malformed.
    pub fn span_id_hex(&self) -> (r: Option<String>)
        ensures
            match r {
                Some(h) => self.span_id@.len() == 8 && h@ == hex_of(self.span_id@),
                None => self.span_id@.len() != 8,
            },
    {
        if self.span_id.len() == 8 {
            Some(crate::codec::hex_encode(&self.span_id))
        } else {
            None
        }
    }

    /// The observation instant, with the zero sentinel reading as
    /// absent.
    pub fn observed_timestamp(&self) -> (r: Option<u64>)
        ensures
            match r {
                Some(t) => self.observed_time_unix_nano != 0 && t == self.observed_time_unix_nano,
                None => self.observed_time_unix_nano == 0,
            },
    {
        if self.observed_time_unix_nano == 0 {
            None
        } else {
            Some(self.observed_time_unix_nano)
        }
    }

    /// The severity text, with an empty string reading as absent.
    pub fn severity_text_opt(&self) -> (r: Option<String>)
        ensures
            match r {
                Some(t) => t@ == self.severity_text@ && t@.len() > 0,
                None => self.severity_text@.len() == 0,
            },
    {
        if self.severity_text.as_str().unicode_len() == 0 {
            None
        } else {
            Some(self.severity_text.clone())
        }
    }
}

} // verus!
