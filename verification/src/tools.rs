//! Per-tool configuration records and states for the stateless
//! data-transform tools hosted by the shell.

use vstd::prelude::*;

verus! {

// ---------------------------------------------------------------------------
// base64 tool
// ---------------------------------------------------------------------------

#[derive(Clone, Copy, PartialEq, Eq, Structural, Debug)]
pub struct Base64ToolConfig {
    pub enabled: bool,
}

impl Default for Base64ToolConfig {
    fn default() -> (c: Self)
        ensures
            c.enabled,
    {
        Base64ToolConfig { enabled: true }
    }
}

pub struct Base64ToolState {
    config: Base64ToolConfig,
}

impl View for Base64ToolState {
    type V = Base64ToolConfig;

    closed spec fn view(&self) -> Base64ToolConfig {
        self.config
    }
}

impl Base64ToolState {
    pub fn new(config: Base64ToolConfig) -> (s: Self)
        ensures
            s@ == config,
    {
        Base64ToolState { config }
    }

    /// The current configuration record.
    pub fn config(&self) -> (c: Base64ToolConfig)
        ensures
            c == self@,
    {
        self.config
    }
}

/// The acknowledgement the base64 tool returns for an action request.
pub fn base64_tool_action(data: &str) -> (r: String)
    ensures
        r@ == "base64-tool processed: "@ + data@,
{
    String::from_str("base64-tool processed: ").concat(data)
}

// ---------------------------------------------------------------------------
// hash tool
// ---------------------------------------------------------------------------

#[derive(Clone, Copy, PartialEq, Eq, Structural, Debug)]
pub struct HashToolConfig {
    pub enabled: bool,
}

impl Default for HashToolConfig {
    fn default() -> (c: Self)
        ensures
            c.enabled,
    {
        HashToolConfig { enabled: true }
    }
}

pub struct HashToolState {
    config: HashToolConfig,
}

impl View for HashToolState {
    type V = HashToolConfig;

    closed spec fn view(&self) -> HashToolConfig {
        self.config
    }
}

impl HashToolState {
    pub fn new(config: HashToolConfig) -> (s: Self)
        ensures
            s@ == config,
    {
        HashToolState { config }
    }

    /// The current configuration record.
    pub fn config(&self) -> (c: HashToolConfig)
        ensures
            c == self@,
    {
        self.config
    }
}

/// The acknowledgement the hash tool returns for an action request.
pub fn hash_tool_action(data: &str) -> (r: String)
    ensures
        r@ == "hash-tool processed: "@ + data@,
{
    String::from_str("hash-tool processed: ").concat(data)
}

// ---------------------------------------------------------------------------
// JSON formatter
// ---------------------------------------------------------------------------

#[derive(Clone, Copy, PartialEq, Eq, Structural, Debug)]
pub struct JsonFormatterConfig {
    pub enabled: bool,
}

impl Default for JsonFormatterConfig {
    fn default() -> (c: Self)
        ensures
            c.enabled,
    {
        JsonFormatterConfig { enabled: true }
    }
}

pub struct JsonFormatterState {
    config: JsonFormatterConfig,
}

impl View for JsonFormatterState {
    type V = JsonFormatterConfig;

    closed spec fn view(&self) -> JsonFormatterConfig {
        self.config
    }
}

impl JsonFormatterState {
    pub fn new(config: JsonFormatterConfig) -> (s: Self)
        ensures
            s@ == config,
    {
        JsonFormatterState { config }
    }

    /// The current configuration record.
    pub fn config(&self) -> (c: JsonFormatterConfig)
        ensures
            c == self@,
    {
        self.config
    }
}

/// The acknowledgement the JSON formatter returns for an action request.
pub fn json_formatter_action(data: &str) -> (r: String)
    ensures
        r@ == "json-formatter processed: "@ + data@,
{
    String::from_str("json-formatter processed: ").concat(data)
}

// ---------------------------------------------------------------------------
// regex tool
// ---------------------------------------------------------------------------

#[derive(Clone, Copy, PartialEq, Eq, Structural, Debug)]
pub struct RegexToolConfig {
    pub enabled: bool,
}

impl Default for RegexToolConfig {
    fn default() -> (c: Self)
        ensures
            c.enabled,
    {
        RegexToolConfig { enabled: true }
    }
}

pub struct RegexToolState {
    config: RegexToolConfig,
}

impl View for RegexToolState {
    type V = RegexToolConfig;

    closed spec fn view(&self) -> RegexToolConfig {
        self.config
    }
}

impl RegexToolState {
    pub fn new(config: RegexToolConfig) -> (s: Self)
        ensures
            s@ == config,
    {
        RegexToolState { config }
    }

    /// The current configuration record.
    pub fn config(&self) -> (c: RegexToolConfig)
        ensures
            c == self@,
    {
        self.config
    }
}

/// The acknowledgement the regex tool returns for an action request.
pub fn regex_tool_action(data: &str) -> (r: String)
    ensures
        r@ == "regex-tool processed: "@ + data@,
{
    String::from_str("regex-tool processed: ").concat(data)
}

// ---------------------------------------------------------------------------
// timestamp tool
// ---------------------------------------------------------------------------

#[derive(Clone, Copy, PartialEq, Eq, Structural, Debug)]
pub struct TimestampToolConfig {
    pub enabled: bool,
}

impl Default for TimestampToolConfig {
    fn default() -> (c: Self)
        ensures
            c.enabled,
    {
        TimestampToolConfig { enabled: true }
    }
}

pub struct TimestampToolState {
    config: TimestampToolConfig,
}

impl View for TimestampToolState {
    type V = TimestampToolConfig;

    closed spec fn view(&self) -> TimestampToolConfig {
        self.config
    }
}

impl TimestampToolState {
    pub fn new(config: TimestampToolConfig) -> (s: Self)
        ensures
            s@ == config,
    {
        TimestampToolState { config }
    }

    /// The current configuration record.
    pub fn config(&self) -> (c: TimestampToolConfig)
        ensures
            c == self@,
    {
        self.config
    }
}

/// The acknowledgement the timestamp tool returns for an action request.
pub fn timestamp_tool_action(data: &str) -> (r: String)
    ensures
        r@ == "timestamp-tool processed: "@ + data@,
{
    String::from_str("timestamp-tool processed: ").concat(data)
}

} // verus!
