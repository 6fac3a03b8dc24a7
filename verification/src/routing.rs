//! Routing of prompts: what of a prompt is worth caching, how a prompt is
//! made cheaper, and whether the cache is asked at all.  Priorities count
//! millionths.
use vstd::prelude::*;
use vstd::utf8::encode_utf8;
use crate::anti_patterns::distinct;
use crate::context::token_cost;
use crate::text::{chars_of, contains_str, contains_text, find, find_from, join, joined, lines, lines_of, occurs, occurs_at, pieces_view, split, split_on, text_of, words, words_of};

verus! {

/// Which API key a request uses.
#[derive(Debug, Clone)]
pub enum ApiKeyConfig {
    UseDefault,
    UserSpecified(String),
}

/// How a prompt is made cheaper.
#[derive(Debug, Clone, Copy, PartialEq, Eq, Structural)]
pub struct TokenOptimization {
    pub remove_redundancy: bool,
    pub compress_context: bool,
    pub split_into_chunks: bool,
}

impl Default for TokenOptimization {
    /// Redundancy is removed; nothing is compressed or split.
    fn default() -> (r: Self)
        ensures
            r == (TokenOptimization {
                remove_redundancy: true,
                compress_context: false,
                split_into_chunks: false,
            }),
    {
        Self { remove_redundancy: true, compress_context: false, split_into_chunks: false }
    }
}

/// A part of a prompt that is worth caching.
#[derive(Debug, Clone)]
pub struct CacheAnchor {
    pub position: usize,
    pub content: String,
    pub priority: i64,
    pub estimated_tokens: usize,
}

/// An anchor as mathematical values.
pub struct AnchorView {
    pub position: nat,
    pub content: Seq<char>,
    pub priority: int,
    pub estimated_tokens: nat,
}

impl View for CacheAnchor {
    type V = AnchorView;

    open spec fn view(&self) -> AnchorView {
        AnchorView {
            position: self.position as nat,
            content: self.content@,
            priority: self.priority as int,
            estimated_tokens: self.estimated_tokens as nat,
        }
    }
}

/// The views of a sequence of anchors.
pub open spec fn anchor_views(anchors: Seq<CacheAnchor>) -> Seq<AnchorView> {
    Seq::new(anchors.len(), |i: int| anchors[i]@)
}

/// The part of a text from the first `start` up to the first `end` that
/// stands at or after it.
pub open spec fn section(text: Seq<char>, start: Seq<char>, end: Seq<char>) -> Option<Seq<char>> {
    match find_from(text, start, 0) {
        Some(from) => match find_from(text, end, from) {
            Some(to) => Some(text.subrange(from, to)),
            None => None,
        },
        None => None,
    }
}

/// The state of a pass over the lines of a text that gathers its fenced
/// blocks: whether a fence is open, the lines of the open block, and the
/// blocks that were closed.
pub struct Fences {
    pub open: bool,
    pub current: Seq<char>,
    pub blocks: Seq<Seq<char>>,
}

/// Whether a line is a fence: it starts with three backticks.
pub open spec fn is_fence(line: Seq<char>) -> bool {
    occurs_at(line, 0, "```"@)
}

/// The state after the given lines.  A fence closes the open block, if there
/// is one, and opens or closes; any other line belongs to the open block, if
/// there is one, and is followed by a line feed there.
pub open spec fn fences(text_lines: Seq<Seq<char>>) -> Fences
    decreases text_lines.len(),
{
    if text_lines.len() == 0 {
        Fences { open: false, current: Seq::empty(), blocks: Seq::empty() }
    } else {
        let before = fences(text_lines.drop_last());
        let line = text_lines.last();
        if is_fence(line) {
            if before.open {
                Fences {
                    open: false,
                    current: Seq::empty(),
                    blocks: before.blocks.push(before.current),
                }
            } else {
                Fences { open: true, ..before }
            }
        } else if before.open {
            Fences { current: before.current + line + seq!['\n'], ..before }
        } else {
            before
        }
    }
}

/// The fenced blocks of a text, separated by line feeds; none if no block is
/// closed.
pub open spec fn code_blocks(text: Seq<char>) -> Option<Seq<char>> {
    let blocks = fences(lines(text)).blocks;
    if blocks.len() == 0 {
        None
    } else {
        Some(joined(blocks, seq!['\n']))
    }
}

/// Whether a sentence speaks of a file.
pub open spec fn names_file(sentence: Seq<char>) -> bool {
    contains_text(sentence, "file"@) || contains_text(sentence, "src/"@) || contains_text(
        sentence,
        ".rs"@,
    )
}

/// The sentences among `sentences` that speak of a file, in order.
pub open spec fn file_sentences(sentences: Seq<Seq<char>>) -> Seq<Seq<char>>
    decreases sentences.len(),
{
    if sentences.len() == 0 {
        Seq::empty()
    } else {
        let front = file_sentences(sentences.drop_last());
        if names_file(sentences.last()) {
            front.push(sentences.last())
        } else {
            front
        }
    }
}

/// The sentences of a text that speak of a file, each followed by a full
/// stop and a space but the last; none if no sentence does.  A sentence is
/// what stands between two full stops.
pub open spec fn file_context(text: Seq<char>) -> Option<Seq<char>> {
    let kept = file_sentences(split(text, '.'));
    if kept.len() == 0 {
        None
    } else {
        Some(joined(kept, ". "@))
    }
}

/// The anchor for a part of a prompt, at the given position and with the
/// given priority: the part costs a quarter of its bytes in tokens.
pub open spec fn anchor_for(content: Seq<char>, position: nat, priority: int) -> AnchorView {
    AnchorView { position, content, priority, estimated_tokens: token_cost(content) }
}

/// `anchors` with one more anchor for `content`, if there is such a part.
pub open spec fn with_anchor(anchors: Seq<AnchorView>, content: Option<Seq<char>>, priority: int) -> Seq<
    AnchorView,
> {
    match content {
        Some(content) => anchors.push(anchor_for(content, anchors.len(), priority)),
        None => anchors,
    }
}

/// The anchors of a prompt: the part from `system` to `user`, the fenced
/// code, and the sentences that speak of a file, as far as the prompt has
/// them, with falling priority.
pub open spec fn anchors_of(prompt: Seq<char>) -> Seq<AnchorView> {
    let first = with_anchor(Seq::empty(), section(prompt, "system"@, "user"@), 1_000_000);
    let second = with_anchor(
        first,
        if contains_text(prompt, "```"@) {
            code_blocks(prompt)
        } else {
            None
        },
        900_000,
    );
    with_anchor(
        second,
        if contains_text(prompt, "file"@) || contains_text(prompt, "src/"@) {
            file_context(prompt)
        } else {
            None
        },
        800_000,
    )
}

/// Finds the parts of a prompt that are worth caching.
#[derive(Debug, Clone, Copy, PartialEq, Eq, Structural)]
pub struct CacheAnchorAnalyzer {}

fn anchor(content: String, position: usize, priority: i64) -> (r: CacheAnchor)
    ensures
        r@ == anchor_for(content@, position as nat, priority as int),
{
    let estimated_tokens: usize = content.as_str().as_bytes().len() / 4;
    CacheAnchor { position, content, priority, estimated_tokens }
}

impl CacheAnchorAnalyzer {
    pub fn new() -> (r: Self)
        ensures
            r == (CacheAnchorAnalyzer {  }),
    {
        Self {  }
    }

    /// The part of a text from the first `start_marker` up to the first
    /// `end_marker` that stands at or after it.
    pub fn extract_section(text: &str, start_marker: &str, end_marker: &str) -> (r: Option<String>)
        ensures
            match r {
                Some(part) => section(text@, start_marker@, end_marker@) == Some(part@),
                None => section(text@, start_marker@, end_marker@) is None,
            },
    {
        let s = chars_of(text);
        let start = chars_of(start_marker);
        let end = chars_of(end_marker);
        match find(&s, &start, 0) {
            Some(from) => match find(&s, &end, from) {
                Some(to) => Some(text_of(&s, from, to)),
                None => None,
            },
            None => None,
        }
    }

    /// The fenced blocks of a text, separated by line feeds.
    pub fn extract_code_blocks(text: &str) -> (r: Option<String>)
        ensures
            match r {
                Some(code) => code_blocks(text@) == Some(code@),
                None => code_blocks(text@) is None,
            },
    {
        let s = chars_of(text);
        let fence = chars_of("```");
        let all = lines_of(&s);
        let ghost wanted = pieces_view(all@);
        let mut blocks: Vec<Vec<char>> = Vec::new();
        let mut current: Vec<char> = Vec::new();
        let mut open: bool = false;
        let mut i: usize = 0;
        assert(wanted.take(0) =~= Seq::<Seq<char>>::empty());
        assert(pieces_view(blocks@) =~= Seq::<Seq<char>>::empty());
        while i < all.len()
            invariant
                i <= all.len(),
                wanted == pieces_view(all@),
                fence@ == "```"@,
                fences(wanted.take(i as int)) == (Fences {
                    open,
                    current: current@,
                    blocks: pieces_view(blocks@),
                }),
            decreases all.len() - i,
        {
            let ghost before = pieces_view(blocks@);
            let ghost block = current@;
            assert(wanted.take(i + 1).drop_last() =~= wanted.take(i as int));
            assert(wanted.take(i + 1).last() == all[i as int]@);
            if occurs(&all[i], 0, &fence) {
                if open {
                    blocks.push(current);
                    current = Vec::new();
                    assert(pieces_view(blocks@) =~= before.push(block));
                } else {
                    assert(pieces_view(blocks@) =~= before);
                }
                open = !open;
            } else if open {
                let mut k: usize = 0;
                while k < all[i].len()
                    invariant
                        k <= all[i as int].len(),
                        i < all.len(),
                        current@ == block + all[i as int]@.take(k as int),
                    decreases all[i as int].len() - k,
                {
                    current.push(all[i][k]);
                    assert(block + all[i as int]@.take(k + 1) =~= (block + all[i as int]@.take(
                        k as int,
                    )).push(all[i as int]@[k as int]));
                    k = k + 1;
                }
                assert(all[i as int]@.take(k as int) =~= all[i as int]@);
                current.push('\n');
                assert(current@ =~= block + all[i as int]@ + seq!['\n']);
                assert(pieces_view(blocks@) =~= before);
            } else {
                assert(pieces_view(blocks@) =~= before);
            }
            i = i + 1;
        }
        assert(wanted.take(i as int) =~= wanted);
        if blocks.len() == 0 {
            None
        } else {
            proof {
                reveal_strlit("\n");
                assert("\n"@ =~= seq!['\n']);
            }
            Some(join(&blocks, "\n"))
        }
    }

    /// The sentences of a text that speak of a file.
    pub fn extract_file_context(text: &str) -> (r: Option<String>)
        ensures
            match r {
                Some(sentences) => file_context(text@) == Some(sentences@),
                None => file_context(text@) is None,
            },
    {
        let s = chars_of(text);
        let sentences = split_on(&s, '.');
        let ghost all = pieces_view(sentences@);
        let mut kept: Vec<Vec<char>> = Vec::new();
        let mut i: usize = 0;
        assert(all.take(0) =~= Seq::<Seq<char>>::empty());
        assert(pieces_view(kept@) =~= Seq::<Seq<char>>::empty());
        while i < sentences.len()
            invariant
                i <= sentences.len(),
                all == pieces_view(sentences@),
                pieces_view(kept@) == file_sentences(all.take(i as int)),
            decreases sentences.len() - i,
        {
            let ghost before = pieces_view(kept@);
            assert(all.take(i + 1).drop_last() =~= all.take(i as int));
            assert(all.take(i + 1).last() == sentences[i as int]@);
            let sentence = &sentences[i];
            if contains_str(sentence, "file") || contains_str(sentence, "src/") || contains_str(
                sentence,
                ".rs",
            ) {
                kept.push(sentence.clone());
                assert(pieces_view(kept@) =~= before.push(sentences[i as int]@));
            } else {
                assert(pieces_view(kept@) =~= before);
            }
            i = i + 1;
        }
        assert(all.take(i as int) =~= all);
        if kept.len() == 0 {
            None
        } else {
            Some(join(&kept, ". "))
        }
    }

    /// The anchors of a prompt.
    pub fn extract_anchors(&self, prompt: &str) -> (anchors: Vec<CacheAnchor>)
        ensures
            anchor_views(anchors@) == anchors_of(prompt@),
            anchors.len() <= 3,
    {
        let s = chars_of(prompt);
        let mut anchors: Vec<CacheAnchor> = Vec::new();
        assert(anchor_views(anchors@) =~= Seq::<AnchorView>::empty());
        match Self::extract_section(prompt, "system", "user") {
            Some(part) => {
                let ghost before = anchor_views(anchors@);
                anchors.push(anchor(part, 0, 1_000_000));
                assert(anchor_views(anchors@) =~= before.push(
                    anchor_for(part@, 0, 1_000_000),
                ));
            },
            None => {},
        }
        let ghost first = anchor_views(anchors@);
        if contains_str(&s, "```") {
            match Self::extract_code_blocks(prompt) {
                Some(code) => {
                    let position: usize = anchors.len();
                    anchors.push(anchor(code, position, 900_000));
                    assert(anchor_views(anchors@) =~= first.push(
                        anchor_for(code@, first.len(), 900_000),
                    ));
                },
                None => {},
            }
        }
        let ghost second = anchor_views(anchors@);
        if contains_str(&s, "file") || contains_str(&s, "src/") {
            match Self::extract_file_context(prompt) {
                Some(sentences) => {
                    let position: usize = anchors.len();
                    anchors.push(anchor(sentences, position, 800_000));
                    assert(anchor_views(anchors@) =~= second.push(
                        anchor_for(sentences@, second.len(), 800_000),
                    ));
                },
                None => {},
            }
        }
        anchors
    }
}

impl Default for CacheAnchorAnalyzer {
    fn default() -> (r: Self)
        ensures
            r == (CacheAnchorAnalyzer {  }),
    {
        Self::new()
    }
}

/// Whether fewer than six in ten of the words of a text differ from all
/// words before them.  A text without words is not redundant.
pub open spec fn redundant(text: Seq<char>) -> bool {
    let all = words(text);
    all.len() > 0 && 10 * distinct(all).len() < 6 * all.len()
}

/// Decides how a prompt is made cheaper.
#[derive(Debug, Clone, Copy, PartialEq, Eq, Structural)]
pub struct TokenOptimizer {}

impl TokenOptimizer {
    pub fn new() -> (r: Self)
        ensures
            r == (TokenOptimizer {  }),
    {
        Self {  }
    }

    /// Whether a text repeats itself.
    pub fn detect_redundancy(text: &str) -> (r: bool)
        ensures
            r == redundant(text@),
    {
        let s = chars_of(text);
        let all = words_of(&s);
        let ghost wanted = pieces_view(all@);
        let mut unique: Vec<Vec<char>> = Vec::new();
        let mut i: usize = 0;
        assert(wanted.take(0) =~= Seq::<Seq<char>>::empty());
        assert(pieces_view(unique@) =~= Seq::<Seq<char>>::empty());
        while i < all.len()
            invariant
                i <= all.len(),
                wanted == pieces_view(all@),
                pieces_view(unique@) == distinct(wanted.take(i as int)),
                unique.len() <= i,
            decreases all.len() - i,
        {
            let ghost before = pieces_view(unique@);
            assert(wanted.take(i + 1).drop_last() =~= wanted.take(i as int));
            assert(wanted.take(i + 1).last() == all[i as int]@);
            if !holds(&unique, &all[i]) {
                unique.push(all[i].clone());
                assert(pieces_view(unique@) =~= before.push(all[i as int]@));
            }
            i = i + 1;
        }
        assert(wanted.take(i as int) =~= wanted);
        if all.len() > 0 {
            (unique.len() as u128) * 10 < (all.len() as u128) * 6
        } else {
            false
        }
    }

    /// The optimization for a prompt of `bytes` bytes: compressed above 4000
    /// bytes, split above 8000.
    pub fn plan(&self, has_redundancy: bool, bytes: usize) -> (r: TokenOptimization)
        ensures
            r == (TokenOptimization {
                remove_redundancy: has_redundancy,
                compress_context: bytes > 4000,
                split_into_chunks: bytes > 8000,
            }),
    {
        TokenOptimization {
            remove_redundancy: has_redundancy,
            compress_context: bytes > 4000,
            split_into_chunks: bytes > 8000,
        }
    }

    /// The optimization for a prompt: redundancy is removed if the prompt
    /// repeats itself, and the prompt is compressed above 4000 bytes and
    /// split above 8000.
    pub fn optimize(&self, prompt: &str) -> (r: TokenOptimization)
        ensures
            r == (TokenOptimization {
                remove_redundancy: redundant(prompt@),
                compress_context: encode_utf8(prompt@).len() > 4000,
                split_into_chunks: encode_utf8(prompt@).len() > 8000,
            }),
    {
        self.plan(Self::detect_redundancy(prompt), prompt.as_bytes().len())
    }
}

impl Default for TokenOptimizer {
    fn default() -> (r: Self)
        ensures
            r == (TokenOptimizer {  }),
    {
        Self::new()
    }
}

fn same_chars(a: &Vec<char>, b: &Vec<char>) -> (r: bool)
    ensures
        r == (a@ == b@),
{
    if a.len() != b.len() {
        return false;
    }
    let mut i: usize = 0;
    while i < a.len()
        invariant
            i <= a.len(),
            a.len() == b.len(),
            forall|j: int| 0 <= j < i ==> a@[j] == b@[j],
        decreases a.len() - i,
    {
        if a[i] != b[i] {
            return false;
        }
        i = i + 1;
    }
    assert(a@ =~= b@);
    true
}

fn holds(list: &Vec<Vec<char>>, word: &Vec<char>) -> (r: bool)
    ensures
        r == pieces_view(list@).contains(word@),
{
    let ghost all = pieces_view(list@);
    let mut i: usize = 0;
    while i < list.len()
        invariant
            i <= list.len(),
            all == pieces_view(list@),
            forall|j: int| 0 <= j < i ==> all[j] != word@,
        decreases list.len() - i,
    {
        if same_chars(&list[i], word) {
            assert(all[i as int] == word@);
            return true;
        }
        i = i + 1;
    }
    false
}

/// Whether a character is a letter or a number, as Unicode defines them.
pub uninterp spec fn alphanumeric(c: char) -> bool;

/// `char::is_alphanumeric`: whether `c` is a letter or a number.  Unicode's
/// tables decide; the answer is named, not spelled out.
#[verifier::external_body]
fn is_alphanumeric(c: char) -> (r: bool)
    ensures
        r == alphanumeric(c),
{
    c.is_alphanumeric()
}

/// How a prompt is routed.
#[derive(Debug, Clone)]
pub struct RoutingDecision {
    pub use_cache: bool,
    pub cache_anchors: Vec<CacheAnchor>,
    pub api_key_selection: ApiKeyConfig,
    pub token_optimization: TokenOptimization,
}

impl RoutingDecision {
    /// The routing for when nothing is known of a prompt: the cache is
    /// asked, without anchors, with the default key and optimization.
    pub fn simple(prompt: &str) -> (r: Self)
        ensures
            r.use_cache,
            r.cache_anchors@.len() == 0,
            r.api_key_selection is UseDefault,
            r.token_optimization == (TokenOptimization {
                remove_redundancy: true,
                compress_context: false,
                split_into_chunks: false,
            }),
    {
        Self {
            use_cache: true,
            cache_anchors: Vec::new(),
            api_key_selection: ApiKeyConfig::UseDefault,
            token_optimization: TokenOptimization::default(),
        }
    }
}

/// Whether a prompt is worth asking the cache for: it is longer than fifty
/// bytes and holds a letter or a number.
pub open spec fn cache_worthy(prompt: Seq<char>) -> bool {
    encode_utf8(prompt).len() > 50 && exists|i: int|
        0 <= i < prompt.len() && alphanumeric(#[trigger] prompt[i])
}

/// Routes prompts by rules of thumb.
#[derive(Debug, Clone, Copy, PartialEq, Eq, Structural)]
pub struct BurnLmRouter {
    pub cache_anchor_analyzer: CacheAnchorAnalyzer,
    pub token_optimizer: TokenOptimizer,
}

impl BurnLmRouter {
    pub fn new() -> (r: Self)
        ensures
            r == (BurnLmRouter {
                cache_anchor_analyzer: CacheAnchorAnalyzer {  },
                token_optimizer: TokenOptimizer {  },
            }),
    {
        Self { cache_anchor_analyzer: CacheAnchorAnalyzer::new(), token_optimizer: TokenOptimizer::new() }
    }

    /// Whether a prompt of `bytes` bytes is worth asking the cache for, where
    /// `letters` says of each of its characters whether it is a letter or a
    /// number.
    pub fn worth_caching(&self, letters: &Vec<bool>, bytes: usize) -> (r: bool)
        ensures
            r == (bytes > 50 && exists|i: int| 0 <= i < letters.len() && #[trigger] letters@[i]),
    {
        if bytes <= 50 {
            return false;
        }
        let mut i: usize = 0;
        while i < letters.len()
            invariant
                i <= letters.len(),
                bytes > 50,
                forall|j: int| 0 <= j < i ==> !#[trigger] letters@[j],
            decreases letters.len() - i,
        {
            if letters[i] {
                return true;
            }
            i = i + 1;
        }
        false
    }

    /// Whether a prompt is worth asking the cache for.
    pub fn should_use_cache(&self, prompt: &str) -> (r: bool)
        ensures
            r == cache_worthy(prompt@),
    {
        let s = chars_of(prompt);
        let mut letters: Vec<bool> = Vec::new();
        let mut i: usize = 0;
        while i < s.len()
            invariant
                i <= s.len(),
                s@ == prompt@,
                letters.len() == i,
                forall|j: int| 0 <= j < i ==> #[trigger] letters@[j] == alphanumeric(s@[j]),
            decreases s.len() - i,
        {
            letters.push(is_alphanumeric(s[i]));
            i = i + 1;
        }
        let r = self.worth_caching(&letters, prompt.as_bytes().len());
        proof {
            if r {
                let at = choose|at: int| 0 <= at < letters.len() && #[trigger] letters@[at];
                assert(alphanumeric(prompt@[at]));
            }
            if cache_worthy(prompt@) {
                let at = choose|at: int| 0 <= at < prompt@.len() && alphanumeric(#[trigger] prompt@[at]);
                assert(letters@[at]);
            }
        }
        r
    }

    /// The routing of a prompt: its anchors, its optimization, the default
    /// key, and whether the cache is asked.
    pub fn route_prompt(&self, refined_prompt: &str) -> (r: RoutingDecision)
        ensures
            r.use_cache == cache_worthy(refined_prompt@),
            anchor_views(r.cache_anchors@) == anchors_of(refined_prompt@),
            r.api_key_selection is UseDefault,
            r.token_optimization == (TokenOptimization {
                remove_redundancy: redundant(refined_prompt@),
                compress_context: encode_utf8(refined_prompt@).len() > 4000,
                split_into_chunks: encode_utf8(refined_prompt@).len() > 8000,
            }),
    {
        let cache_anchors = self.cache_anchor_analyzer.extract_anchors(refined_prompt);
        let token_optimization = self.token_optimizer.optimize(refined_prompt);
        let use_cache = self.should_use_cache(refined_prompt);
        RoutingDecision {
            use_cache,
            cache_anchors,
            api_key_selection: ApiKeyConfig::UseDefault,
            token_optimization,
        }
    }
}

impl Default for BurnLmRouter {
    fn default() -> (r: Self)
        ensures
            r == (BurnLmRouter {
                cache_anchor_analyzer: CacheAnchorAnalyzer {  },
                token_optimizer: TokenOptimizer {  },
            }),
    {
        Self::new()
    }
}

} // verus!
