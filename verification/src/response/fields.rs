use vstd::prelude::*;

verus! {

/// Why the service ended a round.
#[derive(Debug, Clone, Copy, PartialEq, Eq, Structural)]
pub enum FinishReason {
    Stop,
    Length,
    ContentFilter,
    ToolCalls,
    InsufficientSystemResource,
}

/// Token counts of one request.
#[derive(Debug, Clone, Copy)]
pub struct Usage {
    pub completion_tokens: u64,
    pub prompt_tokens: u64,
    pub prompt_cache_hit_tokens: u64,
    pub prompt_cache_miss_tokens: u64,
    pub total_tokens: u64,
    pub completion_tokens_details: Option<CompletionTokensDetails>,
}

/// How the completion tokens divide.
#[derive(Debug, Clone, Copy)]
pub struct CompletionTokensDetails {
    pub reasoning_tokens: u64,
}

} // verus!
