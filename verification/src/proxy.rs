//! Talking to the caching proxy: what is sent, what comes back, what the
//! user gets to see of it, and how the proxy is addressed and awaited.
//! Scores count millionths.
use vstd::prelude::*;
use rand::Rng;
use crate::model::opt_text;
use crate::refinement::RefinedPrompt;
use crate::routing::{CacheAnchor, RoutingDecision, TokenOptimization};
use crate::text::{decimal, push_decimal};

verus! {

/// What is sent to the proxy.
#[derive(Debug, Clone)]
pub struct ProxyRequest {
    pub prompt: String,
    pub cache_anchors: Vec<CacheAnchor>,
    pub api_key: String,
    pub optimization: TokenOptimization,
}

/// Whether the cache had an answer.
#[derive(Debug, Clone)]
pub enum CacheStatus {
    Hit { response: String, latency_ms: u64, similarity_score: i64 },
    Miss,
}

/// What comes back from the proxy.
#[derive(Debug, Clone)]
pub struct ProxyResponse {
    pub cache_status: CacheStatus,
    pub response_text: Option<String>,
    pub tokens_used: usize,
    pub latency_ms: u64,
}

/// The fields of the proxy's reply, each present or absent as it was in the
/// reply.  `error` holds the error's text where the reply has an error, and
/// no text where the error is no text.
#[derive(Debug, Clone)]
pub struct ReplyRecord {
    pub error: Option<Option<String>>,
    pub cache_hit: Option<bool>,
    pub response: Option<String>,
    pub latency_ms: Option<u64>,
    pub similarity_score: Option<i64>,
    pub response_text: Option<String>,
    pub tokens_used: Option<usize>,
}

/// The request for a prompt that was routed.
pub fn proxy_request(prompt: &str, decision: RoutingDecision, api_key: String) -> (request:
    ProxyRequest)
    ensures
        request.prompt@ == prompt@,
        request.cache_anchors == decision.cache_anchors,
        request.api_key == api_key,
        request.optimization == decision.token_optimization,
{
    ProxyRequest {
        prompt: prompt.to_owned(),
        cache_anchors: decision.cache_anchors,
        api_key,
        optimization: decision.token_optimization,
    }
}

/// The complaint that a reply with an error is turned down with.
pub open spec fn complaint(error: Option<Seq<char>>) -> Seq<char> {
    "Widget-Log error: "@ + match error {
        Some(text) => text,
        None => "Unknown"@,
    }
}

/// Whether `status` is the cache status that a reply without error stands
/// for: a hit with the reply's response, latency and similarity, each empty
/// or zero where it is absent, if the reply says so; else a miss.
pub open spec fn is_status_of(status: CacheStatus, reply: ReplyRecord) -> bool {
    if reply.cache_hit == Some(true) {
        &&& status matches CacheStatus::Hit { response, latency_ms, similarity_score }
        &&& response@ == (match reply.response {
            Some(text) => text@,
            None => Seq::empty(),
        })
        &&& latency_ms == (match reply.latency_ms {
            Some(latency) => latency,
            None => 0,
        })
        &&& similarity_score == (match reply.similarity_score {
            Some(score) => score,
            None => 0,
        })
    } else {
        status is Miss
    }
}

/// The response that the proxy's reply stands for.  A reply with an error is
/// turned down with a complaint.
pub fn proxy_response(reply: &ReplyRecord) -> (r: Result<ProxyResponse, String>)
    ensures
        match r {
            Ok(response) => reply.error is None && is_status_of(response.cache_status, *reply)
                && opt_text(response.response_text) == opt_text(reply.response_text)
                && response.tokens_used == (match reply.tokens_used {
                Some(tokens) => tokens,
                None => 0,
            }) && response.latency_ms == (match reply.latency_ms {
                Some(latency) => latency,
                None => 0,
            }),
            Err(message) => reply.error is Some && message@ == complaint(
                opt_text(reply.error->0),
            ),
        },
{
    match &reply.error {
        Some(error) => {
            let mut message = String::from_str("Widget-Log error: ");
            match error {
                Some(text) => {
                    message.append(text.as_str());
                },
                None => {
                    message.append("Unknown");
                },
            }
            return Err(message);
        },
        None => {},
    }
    let latency_ms: u64 = match reply.latency_ms {
        Some(latency) => latency,
        None => 0,
    };
    let hit: bool = match reply.cache_hit {
        Some(hit) => hit,
        None => false,
    };
    let cache_status = if hit {
        CacheStatus::Hit {
            response: match &reply.response {
                Some(text) => text.clone(),
                None => String::new(),
            },
            latency_ms,
            similarity_score: match reply.similarity_score {
                Some(score) => score,
                None => 0,
            },
        }
    } else {
        CacheStatus::Miss
    };
    Ok(
        ProxyResponse {
            cache_status,
            response_text: match &reply.response_text {
                Some(text) => Some(text.clone()),
                None => None,
            },
            tokens_used: match reply.tokens_used {
                Some(tokens) => tokens,
                None => 0,
            },
            latency_ms,
        },
    )
}

/// What the user gets to see.
#[derive(Debug, Clone)]
pub enum AgenticResponse {
    /// An answer from the cache.
    Cached { response: String, latency_ms: u64, similarity_score: i64, refinement_applied: bool },
    /// An answer from the model.
    Fresh { response: String, tokens_used: usize, refinement_applied: bool },
    /// No answer: only what the refinement made of the prompt.
    RefinementOnly { refined_prompt: String, changes_count: usize },
}

/// A prompt that was not refined: it stands for itself, at a quality of one
/// half.
pub fn unrefined(user_input: &str) -> (prompt: RefinedPrompt)
    ensures
        prompt.original@ == user_input@,
        prompt.refined@ == user_input@,
        prompt.changes@.len() == 0,
        prompt.quality_score == 500_000,
        prompt.estimated_cache_hit_improvement == 0,
{
    RefinedPrompt {
        original: user_input.to_owned(),
        refined: user_input.to_owned(),
        changes: Vec::new(),
        quality_score: 500_000,
        estimated_cache_hit_improvement: 0,
    }
}

/// Whether `shown` is what the user gets to see of a refined prompt and the
/// proxy's response to it, if there was one: a hit of the cache is shown as
/// cached, a miss with a text as fresh, and all else as the refinement
/// alone.  Cached and fresh answers say whether the prompt was changed.
pub open spec fn is_shown(shown: AgenticResponse, refined: RefinedPrompt, response: Option<ProxyResponse>) -> bool {
    let changed = refined.changes@.len() > 0;
    match response {
        Some(ProxyResponse { cache_status: CacheStatus::Hit { response, latency_ms, similarity_score }, .. }) => {
            &&& shown matches AgenticResponse::Cached {
                response: text,
                latency_ms: latency,
                similarity_score: score,
                refinement_applied,
            }
            &&& text@ == response@
            &&& latency == latency_ms
            &&& score == similarity_score
            &&& refinement_applied == changed
        },
        Some(ProxyResponse { cache_status: CacheStatus::Miss, response_text: Some(answer), tokens_used, .. }) => {
            &&& shown matches AgenticResponse::Fresh { response: text, tokens_used: tokens, refinement_applied }
            &&& text@ == answer@
            &&& tokens == tokens_used
            &&& refinement_applied == changed
        },
        _ => {
            &&& shown matches AgenticResponse::RefinementOnly { refined_prompt, changes_count }
            &&& refined_prompt@ == refined.refined@
            &&& changes_count == refined.changes@.len()
        },
    }
}

/// What the user gets to see of a refined prompt and the proxy's response to
/// it.
pub fn agentic_response(refined: RefinedPrompt, response: Option<ProxyResponse>) -> (shown:
    AgenticResponse)
    ensures
        is_shown(shown, refined, response),
{
    let changed: bool = refined.changes.len() > 0;
    match response {
        Some(response) => match response.cache_status {
            CacheStatus::Hit { response: text, latency_ms, similarity_score } => {
                return AgenticResponse::Cached {
                    response: text,
                    latency_ms,
                    similarity_score,
                    refinement_applied: changed,
                };
            },
            CacheStatus::Miss => match response.response_text {
                Some(text) => {
                    return AgenticResponse::Fresh {
                        response: text,
                        tokens_used: response.tokens_used,
                        refinement_applied: changed,
                    };
                },
                None => {},
            },
        },
        None => {},
    }
    let changes_count: usize = refined.changes.len();
    AgenticResponse::RefinementOnly { refined_prompt: refined.refined, changes_count }
}

/// An address of the proxy: a scheme, the host, the port and a path.
pub open spec fn address(scheme: Seq<char>, host: Seq<char>, port: u16, path: Seq<char>) -> Seq<char> {
    scheme + host + ":"@ + decimal(port as nat) + path
}

fn address_of(scheme: &str, host: &str, port: u16, path: &str) -> (url: String)
    ensures
        url@ == address(scheme@, host@, port, path@),
{
    let mut url = String::from_str(scheme);
    url.append(host);
    url.append(":");
    push_decimal(&mut url, port as u64);
    url.append(path);
    url
}

/// The proxy as it is addressed: its port and its host.
#[derive(Debug, Clone)]
pub struct WidgetLogProcess {
    pub port: u16,
    pub host: String,
}

impl WidgetLogProcess {
    /// The proxy at the given port of the given host.
    pub fn new(port: u16, host: String) -> (process: Self)
        ensures
            process.port == port,
            process.host == host,
    {
        Self { port, host }
    }

    /// Where the proxy takes requests.
    pub fn get_proxy_url(&self) -> (url: String)
        ensures
            url@ == address("https://"@, self.host@, self.port, "/v1"@),
    {
        address_of("https://", self.host.as_str(), self.port, "/v1")
    }

    /// Where the proxy says how it is.
    pub fn health_url(&self) -> (url: String)
        ensures
            url@ == address("https://"@, self.host@, self.port, "/health"@),
    {
        address_of("https://", self.host.as_str(), self.port, "/health")
    }
}

/// Where the proxy gives its statistics.
pub fn stats_url(host: &str, port: u16) -> (url: String)
    ensures
        url@ == address("https:/"@, host@, port, "/stats"@),
{
    address_of("https:/", host, port, "/stats")
}

/// The environment file of a new proxy: no key, the given token, no cache
/// directory.
pub fn default_env(auth_token: &str) -> (content: String)
    ensures
        content@ == "ANTHROPIC_API_KEY=\nWIDGET_LOG_AUTH_TOKEN="@ + auth_token@
            + "\nWIDGET_LOG_CACHE_DIR=\n"@,
{
    let mut content = String::from_str("ANTHROPIC_API_KEY=\nWIDGET_LOG_AUTH_TOKEN=");
    content.append(auth_token);
    content.append("\nWIDGET_LOG_CACHE_DIR=\n");
    content
}

/// What to do after the proxy was asked how it is.
#[derive(Debug, Clone, Copy, PartialEq, Eq, Structural)]
pub enum WaitStep {
    /// The proxy is up, after this many seconds.
    Ready { seconds: u32 },
    /// Wait a second and ask again.
    Retry,
    /// The proxy did not come up in time.
    GiveUp,
}

/// The number of times that a starting proxy is asked how it is, a second
/// apart.
pub const WAIT_ATTEMPTS: u32 = 30;

/// What to do after the proxy was asked for the time `attempt`, counted from
/// zero: a healthy proxy is ready; an unhealthy one is asked again, but not
/// after the last attempt.
pub fn wait_step(attempt: u32, healthy: bool) -> (step: WaitStep)
    requires
        attempt < WAIT_ATTEMPTS,
    ensures
        step == if healthy {
            WaitStep::Ready { seconds: (attempt + 1) as u32 }
        } else if attempt + 1 < WAIT_ATTEMPTS {
            WaitStep::Retry
        } else {
            WaitStep::GiveUp
        },
{
    if healthy {
        WaitStep::Ready { seconds: attempt + 1 }
    } else if attempt + 1 < WAIT_ATTEMPTS {
        WaitStep::Retry
    } else {
        WaitStep::GiveUp
    }
}

/// `rand::Rng::random` on the generator of the current thread (`rand::rng`):
/// some byte.  Nothing is said about which.
#[verifier::external_body]
fn random_byte() -> (byte: u8)
{
    rand::rng().random::<u8>()
}

/// The standard base64 text of a sequence of bytes, with padding.
pub uninterp spec fn base64_text(bytes: Seq<u8>) -> Seq<char>;

/// `base64::encode`: the standard base64 text of `bytes`.  The text is named,
/// not spelled out.  The length is bounded so that the length of the text
/// can be computed.
#[verifier::external_body]
fn base64_of(bytes: &Vec<u8>) -> (text: String)
    requires
        bytes.len() <= isize::MAX,
    ensures
        text@ == base64_text(bytes@),
{
    base64::encode(bytes)
}

/// The token for the given secret: its base64 text.
pub fn token_for(secret: &Vec<u8>) -> (token: String)
    requires
        secret.len() <= isize::MAX,
    ensures
        token@ == base64_text(secret@),
{
    base64_of(secret)
}

impl WidgetLogProcess {
    /// A fresh authentication token: the base64 text of thirty-two random
    /// bytes.
    pub fn generate_auth_token(&self) -> (token: String)
        ensures
            exists|secret: Seq<u8>| secret.len() == 32 && token@ == #[trigger] base64_text(secret),
    {
        let mut secret: Vec<u8> = Vec::new();
        let mut i: usize = 0;
        while i < 32
            invariant
                i <= 32,
                secret.len() == i,
            decreases 32 - i,
        {
            secret.push(random_byte());
            i = i + 1;
        }
        token_for(&secret)
    }
}

} // verus!
