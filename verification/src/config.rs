//! Settings of the caching proxy and of the layers around it, and what is
//! read from the proxy's environment file.  Thresholds count millionths.
use vstd::prelude::*;
use crate::text::{chars_of, is_space, lines, lines_of, occurs, occurs_at, pieces_view, space, text_of};

verus! {

/// The settings of the caching proxy.
#[derive(Debug, Clone)]
pub struct WidgetLogConfig {
    /// The proxy's directory as text.
    pub widget_log_dir: String,
    pub proxy_host: String,
    pub proxy_port: u16,
    pub auto_start: bool,
}

impl WidgetLogConfig {
    /// The settings for a proxy kept in `widget_log_dir`: it listens on
    /// `127.0.0.1:8443` and starts by itself.
    pub fn with_dir(widget_log_dir: String) -> (config: Self)
        ensures
            config.widget_log_dir == widget_log_dir,
            config.proxy_host@ == "127.0.0.1"@,
            config.proxy_port == 8443,
            config.auto_start,
    {
        Self {
            widget_log_dir,
            proxy_host: String::from_str("127.0.0.1"),
            proxy_port: 8443,
            auto_start: true,
        }
    }
}

/// The proxy's part of the combined settings.
#[derive(Debug, Clone)]
pub struct WidgetLogSection {
    pub enabled: bool,
    pub auto_start: bool,
    pub proxy_host: String,
    pub proxy_port: u16,
    /// The proxy's directory as text.
    pub widget_log_dir: String,
}

/// The agent's part of the combined settings.
#[derive(Debug, Clone)]
pub struct PromptManagementSection {
    pub enabled: bool,
    pub model: String,
    pub refinement_threshold: i64,
    pub auto_approve_safe_refinements: bool,
    pub max_context_tokens: usize,
    pub include_active_file: bool,
    pub include_selection: bool,
    pub include_project_structure: bool,
}

/// The router's part of the combined settings.
#[derive(Debug, Clone)]
pub struct BurnRouterSection {
    pub enabled: bool,
    pub cache_anchor_optimization: bool,
    pub token_optimization: bool,
    pub routing_strategy: String,
}

/// The bridge's part of the combined settings.
#[derive(Debug, Clone)]
pub struct PyO3BridgeSection {
    pub enabled: bool,
    pub gil_optimization: bool,
    pub zero_copy_transfers: bool,
    pub connection_pool_size: usize,
}

/// The combined settings of all layers.
#[derive(Debug, Clone)]
pub struct IntegratedConfig {
    pub widget_log: WidgetLogSection,
    pub prompt_management: PromptManagementSection,
    pub burn_router: BurnRouterSection,
    pub pyo3_bridge: PyO3BridgeSection,
}

impl IntegratedConfig {
    /// The settings for a proxy kept in `widget_log_dir`: every layer is
    /// enabled; the proxy listens on `127.0.0.1:8443` and starts by itself;
    /// the agent uses the small quantized model with a threshold of seven
    /// tenths and a context of 2048 tokens, and includes all it can; the
    /// router chooses its strategy by itself; the bridge keeps four
    /// connections.
    pub fn with_dir(widget_log_dir: String) -> (config: Self)
        ensures
            config.widget_log.enabled && config.widget_log.auto_start,
            config.widget_log.proxy_host@ == "127.0.0.1"@,
            config.widget_log.proxy_port == 8443,
            config.widget_log.widget_log_dir == widget_log_dir,
            config.prompt_management.enabled,
            config.prompt_management.model@ == "phi-3-mini-q4"@,
            config.prompt_management.refinement_threshold == 700_000,
            !config.prompt_management.auto_approve_safe_refinements,
            config.prompt_management.max_context_tokens == 2048,
            config.prompt_management.include_active_file
                && config.prompt_management.include_selection
                && config.prompt_management.include_project_structure,
            config.burn_router.enabled && config.burn_router.cache_anchor_optimization
                && config.burn_router.token_optimization,
            config.burn_router.routing_strategy@ == "auto"@,
            config.pyo3_bridge.enabled && config.pyo3_bridge.gil_optimization
                && config.pyo3_bridge.zero_copy_transfers,
            config.pyo3_bridge.connection_pool_size == 4,
    {
        Self {
            widget_log: WidgetLogSection {
                enabled: true,
                auto_start: true,
                proxy_host: String::from_str("127.0.0.1"),
                proxy_port: 8443,
                widget_log_dir,
            },
            prompt_management: PromptManagementSection {
                enabled: true,
                model: String::from_str("phi-3-mini-q4"),
                refinement_threshold: 700_000,
                auto_approve_safe_refinements: false,
                max_context_tokens: 2048,
                include_active_file: true,
                include_selection: true,
                include_project_structure: true,
            },
            burn_router: BurnRouterSection {
                enabled: true,
                cache_anchor_optimization: true,
                token_optimization: true,
                routing_strategy: String::from_str("auto"),
            },
            pyo3_bridge: PyO3BridgeSection {
                enabled: true,
                gil_optimization: true,
                zero_copy_transfers: true,
                connection_pool_size: 4,
            },
        }
    }
}

/// The first place from `from` on at which `word` does not stand.
pub open spec fn after_repeats(s: Seq<char>, word: Seq<char>, from: int) -> int
    decreases s.len() - from,
{
    if word.len() > 0 && occurs_at(s, from, word) {
        after_repeats(s, word, from + word.len())
    } else {
        from
    }
}

/// The first place from `from` on that holds no white space.
pub open spec fn after_space(s: Seq<char>, from: int) -> int
    decreases s.len() - from,
{
    if 0 <= from < s.len() && is_space(s[from]) {
        after_space(s, from + 1)
    } else {
        from
    }
}

/// The last place down to `from` before which no white space stands.
pub open spec fn before_space(s: Seq<char>, from: int, to: int) -> int
    decreases to - from,
{
    if from < to <= s.len() && is_space(s[to - 1]) {
        before_space(s, from, to - 1)
    } else {
        to
    }
}

/// The token that a line of the environment file sets, if it sets one: the
/// line starts with the token's name and an equals sign, and what follows,
/// after any repetitions of the name and sign and without the white space
/// around it, is not empty.
pub open spec fn token_of(line: Seq<char>) -> Option<Seq<char>> {
    let name = "WIDGET_LOG_AUTH_TOKEN="@;
    if occurs_at(line, 0, name) {
        let from = after_space(line, after_repeats(line, name, 0));
        let to = before_space(line, from, line.len() as int);
        if from < to {
            Some(line.subrange(from, to))
        } else {
            None
        }
    } else {
        None
    }
}

/// The token that the first of the lines that set one sets.
pub open spec fn first_token(text_lines: Seq<Seq<char>>) -> Option<Seq<char>>
    decreases text_lines.len(),
{
    if text_lines.len() == 0 {
        None
    } else {
        match first_token(text_lines.drop_last()) {
            Some(token) => Some(token),
            None => token_of(text_lines.last()),
        }
    }
}

/// The authentication token that an environment file sets.
pub open spec fn auth_token(content: Seq<char>) -> Option<Seq<char>> {
    first_token(lines(content))
}

/// A token within the first `k` lines is the token of all of them.
pub proof fn lemma_first_token_extends(text_lines: Seq<Seq<char>>, k: int)
    requires
        0 <= k <= text_lines.len(),
        first_token(text_lines.take(k)) is Some,
    ensures
        first_token(text_lines) == first_token(text_lines.take(k)),
    decreases text_lines.len() - k,
{
    if k < text_lines.len() {
        assert(text_lines.take(k + 1).drop_last() =~= text_lines.take(k));
        lemma_first_token_extends(text_lines, k + 1);
    } else {
        assert(text_lines.take(k) =~= text_lines);
    }
}

fn line_token(line: &Vec<char>, name: &Vec<char>) -> (r: Option<String>)
    requires
        name@ == "WIDGET_LOG_AUTH_TOKEN="@,
    ensures
        match r {
            Some(token) => token_of(line@) == Some(token@),
            None => token_of(line@) is None,
        },
{
    if !occurs(line, 0, name) {
        return None;
    }
    let mut from: usize = 0;
    while name.len() > 0 && from <= line.len() && occurs(line, from, name)
        invariant
            from <= line.len(),
            after_repeats(line@, name@, from as int) == after_repeats(line@, name@, 0),
        decreases line.len() - from,
    {
        from = from + name.len();
    }
    let ghost start = from;
    while from < line.len() && space(line[from])
        invariant
            start <= from <= line.len(),
            after_space(line@, from as int) == after_space(line@, start as int),
        decreases line.len() - from,
    {
        from = from + 1;
    }
    let mut to: usize = line.len();
    while from < to && space(line[to - 1])
        invariant
            from <= to <= line.len(),
            before_space(line@, from as int, to as int) == before_space(
                line@,
                from as int,
                line.len() as int,
            ),
        decreases to - from,
    {
        to = to - 1;
    }
    if from < to {
        Some(text_of(line, from, to))
    } else {
        None
    }
}

/// The authentication token that an environment file sets: that of the first
/// line that sets a token which is not empty.
pub fn get_auth_token(content: &str) -> (r: Option<String>)
    ensures
        match r {
            Some(token) => auth_token(content@) == Some(token@),
            None => auth_token(content@) is None,
        },
{
    let s = chars_of(content);
    let name = chars_of("WIDGET_LOG_AUTH_TOKEN=");
    let all = lines_of(&s);
    let ghost wanted = pieces_view(all@);
    let mut i: usize = 0;
    assert(wanted.take(0) =~= Seq::<Seq<char>>::empty());
    while i < all.len()
        invariant
            i <= all.len(),
            wanted == pieces_view(all@),
            wanted == lines(content@),
            name@ == "WIDGET_LOG_AUTH_TOKEN="@,
            first_token(wanted.take(i as int)) is None,
        decreases all.len() - i,
    {
        assert(wanted.take(i + 1).drop_last() =~= wanted.take(i as int));
        assert(wanted.take(i + 1).last() == all[i as int]@);
        match line_token(&all[i], &name) {
            Some(token) => {
                proof {
                    lemma_first_token_extends(wanted, i + 1);
                }
                return Some(token);
            },
            None => {},
        }
        i = i + 1;
    }
    assert(wanted.take(i as int) =~= wanted);
    None
}

} // verus!
