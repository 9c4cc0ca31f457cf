//! Plain data types shared between the proxy and its administration interface.
use vstd::prelude::*;

verus! {

/// Why a cookie was taken out of rotation.
#[derive(Debug, Clone, Copy, PartialEq, Eq)]
pub enum Reason {
    NormalPro,
    Free,
    Disabled,
    Banned,
    Null,
    Restricted(i64),
    TooManyRequest(i64),
}

/// A cookie that can no longer be used, as the administration interface lists it.
#[derive(Debug, Clone)]
pub struct UselessCookieApi {
    pub cookie: String,
    pub reason: Option<Reason>,
}

impl UselessCookieApi {
    /// A listing entry for `cookie`, with the reason it was retired.
    pub fn new(cookie: String, reason: Option<Reason>) -> (r: Self)
        ensures
            r.cookie@ == cookie@,
            r.reason == reason,
    {
        UselessCookieApi { cookie, reason }
    }
}

/// Token counters of one accounting window, split by model family.
#[derive(Debug, Clone, Copy, PartialEq, Eq)]
pub struct UsageBreakdown {
    pub total_input_tokens: u64,
    pub total_output_tokens: u64,
    pub sonnet_input_tokens: u64,
    pub sonnet_output_tokens: u64,
    pub opus_input_tokens: u64,
    pub opus_output_tokens: u64,
}

impl UsageBreakdown {
    /// The empty window: every counter is zero.
    pub open spec fn zero() -> Self {
        UsageBreakdown {
            total_input_tokens: 0,
            total_output_tokens: 0,
            sonnet_input_tokens: 0,
            sonnet_output_tokens: 0,
            opus_input_tokens: 0,
            opus_output_tokens: 0,
        }
    }

    /// A window with every counter at zero.
    pub fn empty() -> (r: Self)
        ensures
            r == Self::zero(),
    {
        UsageBreakdown {
            total_input_tokens: 0,
            total_output_tokens: 0,
            sonnet_input_tokens: 0,
            sonnet_output_tokens: 0,
            opus_input_tokens: 0,
            opus_output_tokens: 0,
        }
    }

    /// Whether any counter of the window is non-zero.
    pub fn any_nonzero(&self) -> (b: bool)
        ensures
            b == (*self != Self::zero()),
    {
        self.total_input_tokens != 0 || self.total_output_tokens != 0
            || self.sonnet_input_tokens != 0 || self.sonnet_output_tokens != 0
            || self.opus_input_tokens != 0 || self.opus_output_tokens != 0
    }

    /// Whether the window counted any Sonnet tokens.
    pub fn has_sonnet(&self) -> (b: bool)
        ensures
            b == (self.sonnet_input_tokens > 0 || self.sonnet_output_tokens > 0),
    {
        self.sonnet_input_tokens > 0 || self.sonnet_output_tokens > 0
    }

    /// Whether the window counted any Opus tokens.
    pub fn has_opus(&self) -> (b: bool)
        ensures
            b == (self.opus_input_tokens > 0 || self.opus_output_tokens > 0),
    {
        self.opus_input_tokens > 0 || self.opus_output_tokens > 0
    }

    /// Per-family counters never exceed the window's totals.
    pub open spec fn families_within_totals(self) -> bool {
        &&& self.sonnet_input_tokens <= self.total_input_tokens
        &&& self.sonnet_output_tokens <= self.total_output_tokens
        &&& self.opus_input_tokens <= self.total_input_tokens
        &&& self.opus_output_tokens <= self.total_output_tokens
    }
}

impl Default for UsageBreakdown {
    fn default() -> (r: Self)
        ensures
            r == Self::zero(),
    {
        Self::empty()
    }
}

} // verus!
