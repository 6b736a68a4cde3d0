//! Emoji topology analysis: where emojis occur in a corpus, how often, and
//! how their occurrences group by string and by proximity.
use vstd::prelude::*;
use vstd::string::*;
use unicode_segmentation::UnicodeSegmentation;
use crate::text::{push_decimal, push_text, str_eq, decimal, distinct, count_in, keys_of, lemma_distinct_contains};

verus! {

/// The extended grapheme clusters of a text, in order.
pub uninterp spec fn graphemes_of(s: Seq<char>) -> Seq<Seq<char>>;

/// Relies on `UnicodeSegmentation::graphemes(s, true)` of unicode-segmentation:
/// the extended grapheme clusters of `s`, in order.
#[verifier::external_body]
fn split_graphemes(s: &str) -> (r: Vec<String>)
    ensures
        texts(r@) == graphemes_of(s@),
{
    s.graphemes(true).map(|g| g.to_string()).collect()
}

/// Where an emoji occurs: which string of the corpus, and which grapheme
/// of that string.
#[derive(Clone, Copy, Debug, PartialEq, Eq, Hash, Structural)]
pub struct Path {
    pub string_index: usize,
    pub char_position: usize,
}

impl Path {
    pub fn new(string_index: usize, char_position: usize) -> (r: Path)
        ensures
            r.string_index == string_index && r.char_position == char_position,
    {
        Path { string_index, char_position }
    }
}

/// How the paths of a topology were grouped.
#[derive(Clone, Copy, Debug, PartialEq, Eq, Structural)]
pub enum TopologyType {
    StringLevel,
    WindowBased,
    Semantic,
    Frequency,
}

/// A group of paths. No path occurs twice in it.
#[derive(Clone, Debug)]
pub struct Topology {
    pub topology_type: TopologyType,
    pub paths: Vec<Path>,
    pub description: String,
}

/// The value of a `Topology`.
pub struct TopologyView {
    pub topology_type: TopologyType,
    pub paths: Seq<Path>,
    pub description: Seq<char>,
}

impl View for Topology {
    type V = TopologyView;

    open spec fn view(&self) -> TopologyView {
        TopologyView { topology_type: self.topology_type, paths: self.paths@, description: self.description@ }
    }
}

/// The values of a list of topologies.
pub open spec fn topologies_view(s: Seq<Topology>) -> Seq<TopologyView> {
    s.map_values(|t: Topology| t@)
}

impl Topology {
    /// A copy with the same value.
    pub fn duplicate(&self) -> (r: Topology)
        ensures
            r@ == self@,
    {
        let paths = self.paths.clone();
        assert(paths@ =~= self.paths@);
        Topology { topology_type: self.topology_type, paths, description: self.description.clone() }
    }
}

/// What the analysis found for one emoji.
#[derive(Clone, Debug)]
pub struct EmojiReport {
    pub emoji: String,
    pub frequency: usize,
    pub paths: Vec<Path>,
    pub topologies: Vec<Topology>,
    pub lambda_expression: String,
    pub semiotic_meaning: String,
}

/// The outcome of analysing one corpus.
#[derive(Clone, Debug)]
pub struct TopologyAnalysisResult {
    pub session_id: String,
    pub corpus_size: usize,
    pub total_emojis: usize,
    pub unique_emojis: usize,
    pub depth_n: usize,
    pub emoji_reports: Vec<EmojiReport>,
    pub mathematical_expression: String,
}

/// A fixed session identifier.
#[derive(Clone, Copy, Debug)]
pub struct Uuid;

impl Uuid {
    pub fn new_v4() -> (r: Uuid) {
        Uuid
    }

    pub fn to_string(&self) -> (r: String)
        ensures
            r@ == "emoji-topology-session-123"@,
    {
        String::from_str("emoji-topology-session-123")
    }
}

/// Analyses emoji use with sampling depth `depth_n`; occurrences within
/// `window_size` graphemes of each other in one string form a window.
#[derive(Clone, Copy, Debug)]
pub struct EmojiTopologyAnalyzer {
    pub depth_n: usize,
    pub window_size: usize,
}

/// Code points counted as emoji: emoticons, miscellaneous symbols and
/// pictographs, transport, alchemical symbols, miscellaneous symbols and
/// dingbats.
pub open spec fn emoji_code(v: u32) -> bool {
    (0x1F600 <= v <= 0x1F64F) || (0x1F300 <= v <= 0x1F5FF) || (0x1F680 <= v <= 0x1F6FF) || (0x1F700 <= v
        <= 0x1F77F) || (0x2600 <= v <= 0x26FF) || (0x2700 <= v <= 0x27BF)
}

/// Some character of `s` is an emoji.
pub open spec fn is_emoji_text(s: Seq<char>) -> bool {
    exists|i: int| 0 <= i < s.len() && emoji_code(#[trigger] s[i] as u32)
}

/// The emoji graphemes among `gs`, in order.
pub open spec fn emoji_graphemes(gs: Seq<Seq<char>>) -> Seq<Seq<char>>
    decreases gs.len(),
{
    if gs.len() == 0 {
        Seq::empty()
    } else if is_emoji_text(gs.last()) {
        emoji_graphemes(gs.drop_last()).push(gs.last())
    } else {
        emoji_graphemes(gs.drop_last())
    }
}

/// The paths of the emoji graphemes among `gs`, in string `index`.
pub open spec fn emoji_paths(gs: Seq<Seq<char>>, index: usize) -> Seq<Path>
    decreases gs.len(),
{
    if gs.len() == 0 {
        Seq::empty()
    } else if is_emoji_text(gs.last()) {
        emoji_paths(gs.drop_last(), index).push(Path { string_index: index, char_position: (gs.len() - 1) as usize })
    } else {
        emoji_paths(gs.drop_last(), index)
    }
}

/// The emojis of the first `k` strings of a corpus, one string after another.
pub open spec fn corpus_emojis(corpus: Seq<String>, k: nat) -> Seq<Seq<char>>
    decreases k,
{
    if k == 0 {
        Seq::empty()
    } else {
        corpus_emojis(corpus, (k - 1) as nat) + emoji_graphemes(graphemes_of(corpus[k - 1]@))
    }
}

/// The paths of the emojis of the first `k` strings of a corpus.
pub open spec fn corpus_paths(corpus: Seq<String>, k: nat) -> Seq<Path>
    decreases k,
{
    if k == 0 {
        Seq::empty()
    } else {
        corpus_paths(corpus, (k - 1) as nat) + emoji_paths(graphemes_of(corpus[k - 1]@), (k - 1) as usize)
    }
}

/// The character sequences of a list of strings.
pub open spec fn texts(s: Seq<String>) -> Seq<Seq<char>> {
    s.map_values(|x: String| x@)
}

/// The S-combinator form of an emoji.
pub open spec fn emoji_lambda(e: Seq<char>) -> Seq<char> {
    if e == "🔥"@ { "S (K matmul) I"@ }
    else if e == "⚡"@ { "S (S (K max) (K 0)) I"@ }
    else if e == "🌊"@ { "S (K (λx. 1 / (1 + exp(-x)))) I"@ }
    else if e == "🌀"@ { "S (K tanh) I"@ }
    else if e == "🎭"@ { "S (K softmax) I"@ }
    else if e == "📏"@ { "S (S (K matmul) weight) (K bias)"@ }
    else if e == "🕸️"@ { "S (S (S (K conv2d) kernel) stride) padding"@ }
    else if e == "👁️"@ { "S (S (S (K attention) query) key) value"@ }
    else if e == "🚀"@ { "S (S (S (K optimize) params) gradients) learning_rate"@ }
    else if e == "✨"@ { "S (K beauty) I"@ }
    else {
        "S (K "@ + decimal(if e.len() == 0 { '?' as u32 as nat } else { e[0] as u32 as nat }) + ") I"@
    }
}

/// The meaning given to an emoji.
pub open spec fn emoji_meaning(e: Seq<char>) -> Seq<char> {
    if e == "🔥"@ { "Transformation through mathematical fire"@ }
    else if e == "⚡"@ { "Purification through electrical judgment"@ }
    else if e == "🌊"@ { "Smooth transformation of infinite to bounded"@ }
    else if e == "🌀"@ { "Infinite spiral converging to unity"@ }
    else if e == "🎭"@ { "The mask that reveals rather than conceals"@ }
    else if e == "📏"@ { "The ruler that measures infinite dimensions"@ }
    else if e == "🕸️"@ { "The web that captures meaning from chaos"@ }
    else if e == "👁️"@ { "The all-seeing eye of mathematical consciousness"@ }
    else if e == "🚀"@ { "The vessel that carries us to mathematical truth"@ }
    else if e == "✨"@ { "The sparkle of enlightenment and achievement"@ }
    else { "Mathematical symbol representing "@ + e }
}

/// The formula of the whole analysis at sampling depth `n`.
pub open spec fn pipeline_expression(n: nat) -> Seq<char> {
    "emoji_report = S (λ(l,p)(l',p',ep,t). report(count(l'), sample_"@ + decimal(n) + "(ep), sample_"@
        + decimal(n)
        + "(t))) (λ(l,p). (l, p, associate_paths(l,p), group_topologies(p))) ∘ concat ∘ map(λs_i. extract_with_paths(s_i, i))"@
}

impl EmojiTopologyAnalyzer {
    /// An analyzer with sampling depth `depth_n` and a window of 5.
    pub fn new(depth_n: usize) -> (r: EmojiTopologyAnalyzer)
        ensures
            r.depth_n == depth_n && r.window_size == 5,
    {
        EmojiTopologyAnalyzer { depth_n, window_size: 5 }
    }

    /// Whether some character of `s` is an emoji.
    pub fn is_emoji(&self, s: &str) -> (r: bool)
        ensures
            r == is_emoji_text(s@),
    {
        let n = s.unicode_len();
        let mut i: usize = 0;
        while i < n
            invariant
                0 <= i <= n,
                n == s@.len(),
                forall|j: int| 0 <= j < i ==> !emoji_code(#[trigger] s@[j] as u32),
            decreases n - i,
        {
            let v = s.get_char(i) as u32;
            if (0x1F600 <= v && v <= 0x1F64F) || (0x1F300 <= v && v <= 0x1F5FF) || (0x1F680 <= v && v
                <= 0x1F6FF) || (0x1F700 <= v && v <= 0x1F77F) || (0x2600 <= v && v <= 0x26FF) || (0x2700
                <= v && v <= 0x27BF) {
                return true;
            }
            i = i + 1;
        }
        false
    }

    /// The emojis of `text`, grapheme by grapheme, with their paths in
    /// string `string_index`.
    pub fn extract_with_paths(&self, text: &str, string_index: usize) -> (r: (Vec<String>, Vec<Path>))
        ensures
            texts(r.0@) == emoji_graphemes(graphemes_of(text@)),
            r.1@ == emoji_paths(graphemes_of(text@), string_index),
    {
        let graphemes = split_graphemes(text);
        self.emojis_with_paths(&graphemes, string_index)
    }

    /// The emoji clusters among `graphemes`, with their positions as paths
    /// in string `string_index`.
    pub fn emojis_with_paths(&self, graphemes: &Vec<String>, string_index: usize) -> (r: (Vec<String>, Vec<Path>))
        ensures
            texts(r.0@) == emoji_graphemes(texts(graphemes@)),
            r.1@ == emoji_paths(texts(graphemes@), string_index),
    {
        let ghost gs = texts(graphemes@);
        let mut emojis: Vec<String> = Vec::new();
        let mut paths: Vec<Path> = Vec::new();
        let n = graphemes.len();
        let mut i: usize = 0;
        assert(gs.subrange(0, 0) =~= Seq::<Seq<char>>::empty());
        assert(texts(emojis@) =~= Seq::<Seq<char>>::empty());
        while i < n
            invariant
                0 <= i <= n,
                n == gs.len(),
                texts(graphemes@) == gs,
                texts(emojis@) == emoji_graphemes(gs.subrange(0, i as int)),
                paths@ == emoji_paths(gs.subrange(0, i as int), string_index),
            decreases n - i,
        {
            let ghost pre = gs.subrange(0, i as int);
            let ghost cur = gs.subrange(0, i + 1);
            proof {
                assert(cur.drop_last() =~= pre);
                assert(cur.last() == graphemes@[i as int]@);
            }
            if self.is_emoji(graphemes[i].as_str()) {
                let ghost before = emojis@;
                emojis.push(graphemes[i].clone());
                paths.push(Path::new(string_index, i));
                assert(texts(emojis@) =~= texts(before).push(graphemes@[i as int]@));
            }
            i = i + 1;
        }
        assert(gs.subrange(0, n as int) =~= gs);
        (emojis, paths)
    }

    /// The emojis of every string of the corpus, one string after another,
    /// with their paths.
    pub fn aggregate(&self, corpus: &[String]) -> (r: (Vec<String>, Vec<Path>))
        ensures
            texts(r.0@) == corpus_emojis(corpus@, corpus@.len() as nat),
            r.1@ == corpus_paths(corpus@, corpus@.len() as nat),
    {
        let mut all_emojis: Vec<String> = Vec::new();
        let mut all_paths: Vec<Path> = Vec::new();
        let n = corpus.len();
        let mut i: usize = 0;
        assert(texts(all_emojis@) =~= Seq::<Seq<char>>::empty());
        while i < n
            invariant
                0 <= i <= n,
                n == corpus@.len(),
                texts(all_emojis@) == corpus_emojis(corpus@, i as nat),
                all_paths@ == corpus_paths(corpus@, i as nat),
            decreases n - i,
        {
            let (mut emojis, mut paths) = self.extract_with_paths(corpus[i].as_str(), i);
            let ghost before_e = all_emojis@;
            let ghost add_e = emojis@;
            all_emojis.append(&mut emojis);
            all_paths.append(&mut paths);
            assert(texts(all_emojis@) =~= texts(before_e) + texts(add_e));
            i = i + 1;
        }
        (all_emojis, all_paths)
    }

    /// The S-combinator form of `emoji`; for an emoji without one, the
    /// code point of its first character (`?` when empty) in `S (K _) I`.
    pub fn get_emoji_lambda_expression(&self, emoji: &str) -> (r: String)
        ensures
            r@ == emoji_lambda(emoji@),
    {
        if str_eq(emoji, "🔥") { String::from_str("S (K matmul) I") }
        else if str_eq(emoji, "⚡") { String::from_str("S (S (K max) (K 0)) I") }
        else if str_eq(emoji, "🌊") { String::from_str("S (K (λx. 1 / (1 + exp(-x)))) I") }
        else if str_eq(emoji, "🌀") { String::from_str("S (K tanh) I") }
        else if str_eq(emoji, "🎭") { String::from_str("S (K softmax) I") }
        else if str_eq(emoji, "📏") { String::from_str("S (S (K matmul) weight) (K bias)") }
        else if str_eq(emoji, "🕸️") { String::from_str("S (S (S (K conv2d) kernel) stride) padding") }
        else if str_eq(emoji, "👁️") { String::from_str("S (S (S (K attention) query) key) value") }
        else if str_eq(emoji, "🚀") { String::from_str("S (S (S (K optimize) params) gradients) learning_rate") }
        else if str_eq(emoji, "✨") { String::from_str("S (K beauty) I") }
        else {
            let code: u32 = if emoji.unicode_len() == 0 { '?' as u32 } else { emoji.get_char(0) as u32 };
            let mut r = String::from_str("S (K ");
            push_decimal(&mut r, code as usize);
            push_text(&mut r, ") I");
            r
        }
    }

    /// The meaning given to `emoji`.
    pub fn get_emoji_semiotic_meaning(&self, emoji: &str) -> (r: String)
        ensures
            r@ == emoji_meaning(emoji@),
    {
        if str_eq(emoji, "🔥") { String::from_str("Transformation through mathematical fire") }
        else if str_eq(emoji, "⚡") { String::from_str("Purification through electrical judgment") }
        else if str_eq(emoji, "🌊") { String::from_str("Smooth transformation of infinite to bounded") }
        else if str_eq(emoji, "🌀") { String::from_str("Infinite spiral converging to unity") }
        else if str_eq(emoji, "🎭") { String::from_str("The mask that reveals rather than conceals") }
        else if str_eq(emoji, "📏") { String::from_str("The ruler that measures infinite dimensions") }
        else if str_eq(emoji, "🕸️") { String::from_str("The web that captures meaning from chaos") }
        else if str_eq(emoji, "👁️") { String::from_str("The all-seeing eye of mathematical consciousness") }
        else if str_eq(emoji, "🚀") { String::from_str("The vessel that carries us to mathematical truth") }
        else if str_eq(emoji, "✨") { String::from_str("The sparkle of enlightenment and achievement") }
        else {
            let mut r = String::from_str("Mathematical symbol representing ");
            push_text(&mut r, emoji);
            r
        }
    }

    /// The formula of the analysis at this analyzer's depth.
    pub fn get_mathematical_expression(&self) -> (r: String)
        ensures
            r@ == pipeline_expression(self.depth_n as nat),
    {
        let mut r = String::from_str("emoji_report = S (λ(l,p)(l',p',ep,t). report(count(l'), sample_");
        push_decimal(&mut r, self.depth_n);
        push_text(&mut r, "(ep), sample_");
        push_decimal(&mut r, self.depth_n);
        push_text(
            &mut r,
            "(t))) (λ(l,p). (l, p, associate_paths(l,p), group_topologies(p))) ∘ concat ∘ map(λs_i. extract_with_paths(s_i, i))",
        );
        r
    }
}

/// The paths that stand beside an occurrence of `e` among the first `m`
/// emojis, emoji `i` beside path `i`.
pub open spec fn paths_beside(emojis: Seq<Seq<char>>, paths: Seq<Path>, e: Seq<char>, m: nat) -> Seq<Path>
    decreases m,
{
    if m == 0 {
        Seq::empty()
    } else if emojis[m - 1] == e {
        paths_beside(emojis, paths, e, (m - 1) as nat).push(paths[m - 1])
    } else {
        paths_beside(emojis, paths, e, (m - 1) as nat)
    }
}

/// `a` comes no later than `b`: by string, then by position.
pub open spec fn path_le(a: Path, b: Path) -> bool {
    a.string_index < b.string_index || (a.string_index == b.string_index && a.char_position <= b.char_position)
}

/// Where `x` goes into `t`: after the last path that comes no later than it.
pub open spec fn path_insert_pos(t: Seq<Path>, x: Path) -> int
    decreases t.len(),
{
    if t.len() == 0 {
        0
    } else if path_le(t.last(), x) {
        t.len() as int
    } else {
        path_insert_pos(t.drop_last(), x)
    }
}

/// The paths of `s` in order by string, then by position (equal paths keep
/// their order).
pub open spec fn sorted_paths(s: Seq<Path>) -> Seq<Path>
    decreases s.len(),
{
    if s.len() == 0 {
        s
    } else {
        let t = sorted_paths(s.drop_last());
        t.insert(path_insert_pos(t, s.last()), s.last())
    }
}

/// The first `n` items of `s`, or all of them when there are fewer.
pub open spec fn take_upto<A>(s: Seq<A>, n: int) -> Seq<A> {
    if s.len() <= n {
        s
    } else {
        s.take(n)
    }
}

/// Some path of `t` is among `ps`.
pub open spec fn shares_path(t: Seq<Path>, ps: Seq<Path>) -> bool {
    exists|i: int, j: int| 0 <= i < t.len() && 0 <= j < ps.len() && #[trigger] t[i] == #[trigger] ps[j]
}

/// The topologies among the first `m` of `ts` that share a path with `ps`.
pub open spec fn touching(ts: Seq<TopologyView>, ps: Seq<Path>, m: nat) -> Seq<TopologyView>
    decreases m,
{
    if m == 0 {
        Seq::empty()
    } else if shares_path(ts[m - 1].paths, ps) {
        touching(ts, ps, (m - 1) as nat).push(ts[m - 1])
    } else {
        touching(ts, ps, (m - 1) as nat)
    }
}

/// Finds the pair whose emoji is `e`.
fn find_key<A>(r: &Vec<(String, A)>, e: &String) -> (k: Option<usize>)
    ensures
        match k {
            Some(k) => k < r@.len() && r@[k as int].0@ == e@,
            None => !keys_of(r@).contains(e@),
        },
{
    let mut k: usize = 0;
    while k < r.len()
        invariant
            0 <= k <= r@.len(),
            forall|j: int| 0 <= j < k ==> #[trigger] r@[j].0@ != e@,
        decreases r@.len() - k,
    {
        if str_eq(r[k].0.as_str(), e.as_str()) {
            return Some(k);
        }
        k = k + 1;
    }
    proof {
        if keys_of(r@).contains(e@) {
            let j = choose|j: int| 0 <= j < keys_of(r@).len() && keys_of(r@)[j] == e@;
            assert(r@[j].0@ == e@);
        }
    }
    None
}

impl EmojiTopologyAnalyzer {
    /// How often each emoji occurs, emojis in order of first occurrence.
    pub fn count_emojis(&self, emoji_list: &[String]) -> (r: Vec<(String, usize)>)
        ensures
            keys_of(r@) == distinct(texts(emoji_list@)),
            forall|k: int| 0 <= k < r@.len() ==> #[trigger] r@[k].1 == count_in(texts(emoji_list@), r@[k].0@),
    {
        let ghost l = texts(emoji_list@);
        let mut counts: Vec<(String, usize)> = Vec::new();
        let n = emoji_list.len();
        let mut i: usize = 0;
        assert(keys_of(counts@) =~= distinct(l.subrange(0, 0)));
        assert(l.subrange(0, 0) =~= Seq::<Seq<char>>::empty());
        while i < n
            invariant
                0 <= i <= n,
                n == emoji_list@.len(),
                l == texts(emoji_list@),
                keys_of(counts@) == distinct(l.subrange(0, i as int)),
                forall|k: int| 0 <= k < counts@.len() ==> #[trigger] counts@[k].1 == count_in(l.subrange(0, i as int), counts@[k].0@),
                forall|k: int| 0 <= k < counts@.len() ==> #[trigger] counts@[k].1 <= i,
            decreases n - i,
        {
            let e = &emoji_list[i];
            let ghost pre = l.subrange(0, i as int);
            let ghost cur = l.subrange(0, i + 1);
            proof {
                assert(cur.drop_last() =~= pre);
                assert(cur.last() == e@);
            }
            let ghost before = counts@;
            match find_key(&counts, e) {
                Some(k) => {
                    let name = counts[k].0.clone();
                    let c = counts[k].1;
                    counts.set(k, (name, c + 1));
                    proof {
                        lemma_distinct_contains(pre, e@);
                        assert forall|k2: int| 0 <= k2 < before.len() && k2 != k implies before[k2].0@ != e@ by {
                            assert(keys_of(before)[k2] == before[k2].0@);
                            assert(keys_of(before)[k as int] == before[k as int].0@);
                            if k2 < k {
                                assert(distinct(pre)[k2] != distinct(pre)[k as int]);
                            } else {
                                assert(distinct(pre)[k as int] != distinct(pre)[k2]);
                            }
                        }
                        assert(keys_of(before).contains(e@)) by {
                            assert(keys_of(before)[k as int] == e@);
                        }
                        assert(keys_of(counts@) =~= keys_of(before));
                        assert forall|k2: int| 0 <= k2 < counts@.len() implies #[trigger] counts@[k2].1 == count_in(cur, counts@[k2].0@) by {
                            if k2 != k {
                                assert(counts@[k2] == before[k2]);
                            }
                        }
                    }
                },
                None => {
                    counts.push((e.clone(), 1));
                    proof {
                        assert(keys_of(counts@) =~= keys_of(before).push(e@));
                        lemma_distinct_contains(pre, e@);
                        assert forall|k2: int| 0 <= k2 < counts@.len() implies #[trigger] counts@[k2].1 == count_in(cur, counts@[k2].0@) by {
                            if k2 < before.len() {
                                assert(counts@[k2] == before[k2]);
                                assert(keys_of(before)[k2] == before[k2].0@);
                            }
                        }
                    }
                },
            }
            i = i + 1;
        }
        assert(l.subrange(0, n as int) =~= l);
        counts
    }

    /// The paths beside each emoji, emoji `i` beside path `i` as far as
    /// both lists go; emojis in order of first occurrence.
    pub fn associate_paths(&self, emoji_list: &[String], path_set: &[Path]) -> (r: Vec<(String, Vec<Path>)>)
        ensures
            ({
                let m = if emoji_list@.len() <= path_set@.len() { emoji_list@.len() } else { path_set@.len() };
                &&& keys_of(r@) == distinct(texts(emoji_list@).take(m as int))
                &&& forall|k: int|
                    0 <= k < r@.len() ==> (#[trigger] r@[k]).1@ == paths_beside(
                        texts(emoji_list@),
                        path_set@,
                        r@[k].0@,
                        m as nat,
                    )
            }),
    {
        let ghost l = texts(emoji_list@);
        let m = if emoji_list.len() <= path_set.len() { emoji_list.len() } else { path_set.len() };
        let mut assoc: Vec<(String, Vec<Path>)> = Vec::new();
        let mut i: usize = 0;
        assert(keys_of(assoc@) =~= distinct(l.take(0)));
        while i < m
            invariant
                0 <= i <= m,
                m <= emoji_list@.len(),
                m <= path_set@.len(),
                l == texts(emoji_list@),
                keys_of(assoc@) == distinct(l.take(i as int)),
                forall|k: int|
                    0 <= k < assoc@.len() ==> (#[trigger] assoc@[k]).1@ == paths_beside(l, path_set@, assoc@[k].0@, i as nat),
            decreases m - i,
        {
            let e = &emoji_list[i];
            let p = path_set[i];
            let ghost pre = l.take(i as int);
            let ghost cur = l.take(i + 1);
            proof {
                assert(cur.drop_last() =~= pre);
                assert(cur.last() == e@);
            }
            let ghost before = assoc@;
            match find_key(&assoc, e) {
                Some(k) => {
                    let name = assoc[k].0.clone();
                    let mut ps = assoc[k].1.clone();
                    assert(ps@ =~= assoc@[k as int].1@);
                    ps.push(p);
                    assoc.set(k, (name, ps));
                    proof {
                        assert(l[i as int] == e@);
                        lemma_distinct_contains(pre, e@);
                        assert forall|k2: int| 0 <= k2 < before.len() && k2 != k implies before[k2].0@ != e@ by {
                            assert(keys_of(before)[k2] == before[k2].0@);
                            assert(keys_of(before)[k as int] == before[k as int].0@);
                            if k2 < k {
                                assert(distinct(pre)[k2] != distinct(pre)[k as int]);
                            } else {
                                assert(distinct(pre)[k as int] != distinct(pre)[k2]);
                            }
                        }
                        assert(keys_of(before).contains(e@)) by {
                            assert(keys_of(before)[k as int] == e@);
                        }
                        assert(keys_of(assoc@) =~= keys_of(before));
                        assert forall|k2: int| 0 <= k2 < assoc@.len() implies (#[trigger] assoc@[k2]).1@ == paths_beside(l, path_set@, assoc@[k2].0@, (i + 1) as nat) by {
                            if k2 != k {
                                assert(assoc@[k2] == before[k2]);
                            }
                        }
                    }
                },
                None => {
                    let mut ps: Vec<Path> = Vec::new();
                    ps.push(p);
                    assoc.push((e.clone(), ps));
                    proof {
                        assert(l[i as int] == e@);
                        assert forall|k2: int| 0 <= k2 < before.len() implies before[k2].0@ != e@ by {
                            assert(keys_of(before)[k2] == before[k2].0@);
                        }
                        assert(keys_of(assoc@) =~= keys_of(before).push(e@));
                        assert forall|k2: int| 0 <= k2 < assoc@.len() implies (#[trigger] assoc@[k2]).1@ == paths_beside(l, path_set@, assoc@[k2].0@, (i + 1) as nat) by {
                            if k2 < before.len() {
                                assert(assoc@[k2] == before[k2]);
                            } else {
                                lemma_beside_absent(l, path_set@, e@, i as nat);
                                assert(ps@ =~= seq![p]);
                            }
                        }
                    }
                },
            }
            i = i + 1;
        }
        assoc
    }

    /// The first `n` of `paths` in order by string, then by position.
    pub fn sample_paths(&self, paths: &[Path], n: usize) -> (r: Vec<Path>)
        ensures
            r@ == take_upto(sorted_paths(paths@), n as int),
            forall|a: int, b: int| 0 <= a < b < r@.len() ==> path_le(#[trigger] r@[a], #[trigger] r@[b]),
    {
        proof {
            lemma_sorted_paths_in_order(paths@);
        }
        let mut sorted: Vec<Path> = Vec::new();
        let len = paths.len();
        let mut i: usize = 0;
        assert(paths@.subrange(0, 0) =~= Seq::<Path>::empty());
        while i < len
            invariant
                0 <= i <= len,
                len == paths@.len(),
                sorted@ == sorted_paths(paths@.subrange(0, i as int)),
                sorted@.len() == i,
            decreases len - i,
        {
            let x = paths[i];
            let mut j: usize = sorted.len();
            assert(sorted@.subrange(0, j as int) =~= sorted@);
            while j > 0 && !(sorted[j - 1].string_index < x.string_index || (sorted[j - 1].string_index
                == x.string_index && sorted[j - 1].char_position <= x.char_position))
                invariant
                    0 <= j <= sorted@.len(),
                    path_insert_pos(sorted@, x) == path_insert_pos(sorted@.subrange(0, j as int), x),
                decreases j,
            {
                assert(sorted@.subrange(0, j as int).drop_last() =~= sorted@.subrange(0, j - 1));
                j = j - 1;
            }
            proof {
                if j == sorted@.len() {
                    assert(sorted@.subrange(0, j as int) =~= sorted@);
                }
                let cur = paths@.subrange(0, i + 1);
                assert(cur.drop_last() =~= paths@.subrange(0, i as int));
            }
            sorted.insert(j, x);
            i = i + 1;
        }
        assert(paths@.subrange(0, len as int) =~= paths@);
        if sorted.len() > n {
            sorted.truncate(n);
        }
        sorted
    }

    /// The first `n` topologies.
    pub fn sample_topologies(&self, topologies: &[Topology], n: usize) -> (r: Vec<Topology>)
        ensures
            topologies_view(r@) == take_upto(topologies_view(topologies@), n as int),
    {
        let m = if topologies.len() <= n { topologies.len() } else { n };
        let mut r: Vec<Topology> = Vec::new();
        let mut i: usize = 0;
        while i < m
            invariant
                0 <= i <= m,
                m <= topologies@.len(),
                m == if topologies@.len() <= n { topologies@.len() as int } else { n as int },
                topologies_view(r@) == topologies_view(topologies@).take(i as int),
            decreases m - i,
        {
            let t = topologies[i].duplicate();
            let ghost before = r@;
            r.push(t);
            assert(topologies_view(r@) =~= topologies_view(before).push(t@));
            assert(topologies_view(r@) =~= topologies_view(topologies@).take(i + 1));
            i = i + 1;
        }
        assert(take_upto(topologies_view(topologies@), n as int) =~= topologies_view(topologies@).take(m as int));
        r
    }

    /// The topologies that share a path with `paths`, in order.
    pub fn get_emoji_topologies(&self, emoji: &str, paths: &[Path], topologies: &[Topology]) -> (r: Vec<Topology>)
        ensures
            topologies_view(r@) == touching(topologies_view(topologies@), paths@, topologies@.len() as nat),
    {
        let ghost tv = topologies_view(topologies@);
        let mut r: Vec<Topology> = Vec::new();
        let n = topologies.len();
        let mut i: usize = 0;
        assert(topologies_view(r@) =~= Seq::<TopologyView>::empty());
        while i < n
            invariant
                0 <= i <= n,
                n == topologies@.len(),
                tv == topologies_view(topologies@),
                topologies_view(r@) == touching(tv, paths@, i as nat),
            decreases n - i,
        {
            let t = &topologies[i];
            if shares(t.paths.as_slice(), paths) {
                let ghost before = r@;
                r.push(t.duplicate());
                assert(topologies_view(r@) =~= topologies_view(before).push(tv[i as int]));
            }
            i = i + 1;
        }
        r
    }
}

/// Whether some path of `t` is among `ps`.
fn shares(t: &[Path], ps: &[Path]) -> (r: bool)
    ensures
        r == shares_path(t@, ps@),
{
    let mut i: usize = 0;
    while i < t.len()
        invariant
            0 <= i <= t@.len(),
            forall|a: int, b: int| 0 <= a < i && 0 <= b < ps@.len() ==> #[trigger] t@[a] != #[trigger] ps@[b],
        decreases t@.len() - i,
    {
        let mut j: usize = 0;
        while j < ps.len()
            invariant
                0 <= j <= ps@.len(),
                0 <= i < t@.len(),
                forall|a: int, b: int| 0 <= a < i && 0 <= b < ps@.len() ==> #[trigger] t@[a] != #[trigger] ps@[b],
                forall|b: int| 0 <= b < j ==> t@[i as int] != #[trigger] ps@[b],
            decreases ps@.len() - j,
        {
            if t[i] == ps[j] {
                return true;
            }
            j = j + 1;
        }
        i = i + 1;
    }
    false
}

proof fn lemma_beside_absent(l: Seq<Seq<char>>, ps: Seq<Path>, e: Seq<char>, i: nat)
    requires
        i < l.len(),
        !distinct(l.take(i as int)).contains(e),
    ensures
        paths_beside(l, ps, e, i) == Seq::<Path>::empty(),
    decreases i,
{
    if i > 0 {
        lemma_distinct_contains(l.take(i as int), e);
        assert(l.take(i as int)[i - 1] == l[i - 1]);
        if l[i - 1] == e {
            assert(l.take(i as int).contains(e));
        }
        lemma_distinct_contains(l.take(i - 1), e);
        if l.take(i - 1).contains(e) {
            let j = choose|j: int| 0 <= j < l.take(i - 1).len() && #[trigger] l.take(i - 1)[j] == e;
            assert(l.take(i as int)[j] == e);
        }
        lemma_beside_absent(l, ps, e, (i - 1) as nat);
    }
}

/// `a` and `b` lie in one string, at most `w` graphemes apart.
pub open spec fn near(a: Path, b: Path, w: usize) -> bool {
    a.string_index == b.string_index && (if a.char_position >= b.char_position {
        a.char_position - b.char_position
    } else {
        b.char_position - a.char_position
    }) <= w
}

/// The paths among the first `m` of `paths`, other than `p`, near `p`.
pub open spec fn near_others(paths: Seq<Path>, p: Path, w: usize, m: nat) -> Seq<Path>
    decreases m,
{
    if m == 0 {
        Seq::empty()
    } else if paths[m - 1] != p && near(paths[m - 1], p, w) {
        near_others(paths, p, w, (m - 1) as nat).push(paths[m - 1])
    } else {
        near_others(paths, p, w, (m - 1) as nat)
    }
}

/// The window around `p`: `p` itself, then the other paths near it.
pub open spec fn window_around(paths: Seq<Path>, p: Path, w: usize) -> Seq<Path> {
    seq![p] + near_others(paths, p, w, paths.len())
}

/// The window topologies found by visiting the first `k` paths, and the
/// paths already placed in a window. A path already placed opens no window;
/// a window of a single path is dropped.
pub open spec fn window_scan(paths: Seq<Path>, w: usize, k: nat) -> (Seq<TopologyView>, Seq<Path>)
    decreases k,
{
    if k == 0 {
        (Seq::empty(), Seq::empty())
    } else {
        let (ts, done) = window_scan(paths, w, (k - 1) as nat);
        let p = paths[k - 1];
        if done.contains(p) {
            (ts, done)
        } else {
            let win = window_around(paths, p, w);
            let t = TopologyView {
                topology_type: TopologyType::WindowBased,
                paths: win,
                description: "Window-based topology around position "@ + decimal(p.char_position as nat),
            };
            (if win.len() > 1 { ts.push(t) } else { ts }, done + win)
        }
    }
}

/// The paths among the first `m` of `paths` in string `idx`.
pub open spec fn with_index(paths: Seq<Path>, idx: usize, m: nat) -> Seq<Path>
    decreases m,
{
    if m == 0 {
        Seq::empty()
    } else if paths[m - 1].string_index == idx {
        with_index(paths, idx, (m - 1) as nat).push(paths[m - 1])
    } else {
        with_index(paths, idx, (m - 1) as nat)
    }
}

/// The string indices of the first `m` paths, in order of first occurrence.
pub open spec fn string_indices(paths: Seq<Path>, m: nat) -> Seq<usize>
    decreases m,
{
    if m == 0 {
        Seq::empty()
    } else if string_indices(paths, (m - 1) as nat).contains(paths[m - 1].string_index) {
        string_indices(paths, (m - 1) as nat)
    } else {
        string_indices(paths, (m - 1) as nat).push(paths[m - 1].string_index)
    }
}

/// One topology per string, holding that string's paths in order.
pub open spec fn string_groups(paths: Seq<Path>) -> Seq<TopologyView> {
    string_indices(paths, paths.len()).map_values(
        |idx: usize|
            TopologyView {
                topology_type: TopologyType::StringLevel,
                paths: with_index(paths, idx, paths.len()),
                description: "String-level topology for string "@ + decimal(idx as nat),
            },
    )
}

fn contains_index(v: &Vec<usize>, x: usize) -> (r: bool)
    ensures
        r == v@.contains(x),
{
    let mut i: usize = 0;
    while i < v.len()
        invariant
            0 <= i <= v@.len(),
            forall|j: int| 0 <= j < i ==> v@[j] != x,
        decreases v@.len() - i,
    {
        if v[i] == x {
            return true;
        }
        i = i + 1;
    }
    false
}

fn contains_path(v: &Vec<Path>, x: Path) -> (r: bool)
    ensures
        r == v@.contains(x),
{
    let mut i: usize = 0;
    while i < v.len()
        invariant
            0 <= i <= v@.len(),
            forall|j: int| 0 <= j < i ==> v@[j] != x,
        decreases v@.len() - i,
    {
        if v[i] == x {
            return true;
        }
        i = i + 1;
    }
    false
}

impl EmojiTopologyAnalyzer {
    /// Groups paths by string, then by windows of nearby positions.
    pub fn group_topologies(&self, path_set: &[Path]) -> (r: Vec<Topology>)
        ensures
            topologies_view(r@) == string_groups(path_set@) + window_scan(
                path_set@,
                self.window_size,
                path_set@.len() as nat,
            ).0,
    {
        let n = path_set.len();
        let mut indices: Vec<usize> = Vec::new();
        let mut i: usize = 0;
        while i < n
            invariant
                0 <= i <= n,
                n == path_set@.len(),
                indices@ == string_indices(path_set@, i as nat),
            decreases n - i,
        {
            let idx = path_set[i].string_index;
            if !contains_index(&indices, idx) {
                indices.push(idx);
            }
            i = i + 1;
        }
        let ghost groups = string_groups(path_set@);
        let mut topologies: Vec<Topology> = Vec::new();
        let mut g: usize = 0;
        while g < indices.len()
            invariant
                0 <= g <= indices@.len(),
                n == path_set@.len(),
                indices@ == string_indices(path_set@, n as nat),
                groups == string_groups(path_set@),
                topologies_view(topologies@) == groups.take(g as int),
            decreases indices@.len() - g,
        {
            let idx = indices[g];
            let mut paths: Vec<Path> = Vec::new();
            let mut j: usize = 0;
            while j < n
                invariant
                    0 <= j <= n,
                    n == path_set@.len(),
                    paths@ == with_index(path_set@, idx, j as nat),
                decreases n - j,
            {
                if path_set[j].string_index == idx {
                    paths.push(path_set[j]);
                }
                j = j + 1;
            }
            let mut description = String::from_str("String-level topology for string ");
            push_decimal(&mut description, idx);
            let t = Topology { topology_type: TopologyType::StringLevel, paths, description };
            let ghost before = topologies@;
            topologies.push(t);
            assert(topologies_view(topologies@) =~= topologies_view(before).push(t@));
            assert(groups.take(g + 1) =~= groups.take(g as int).push(groups[g as int]));
            g = g + 1;
        }
        assert(groups.take(indices@.len() as int) =~= groups);
        let mut windows = self.create_window_topologies(path_set);
        let ghost before = topologies@;
        let ghost wv = topologies_view(windows@);
        topologies.append(&mut windows);
        assert(topologies_view(topologies@) =~= topologies_view(before) + wv);
        topologies
    }

    /// Windows of nearby paths, visiting the paths in order.
    pub fn create_window_topologies(&self, path_set: &[Path]) -> (r: Vec<Topology>)
        ensures
            topologies_view(r@) == window_scan(path_set@, self.window_size, path_set@.len() as nat).0,
    {
        let n = path_set.len();
        let w = self.window_size;
        let mut topologies: Vec<Topology> = Vec::new();
        let mut processed: Vec<Path> = Vec::new();
        let mut i: usize = 0;
        assert(topologies_view(topologies@) =~= Seq::<TopologyView>::empty());
        while i < n
            invariant
                0 <= i <= n,
                n == path_set@.len(),
                w == self.window_size,
                topologies_view(topologies@) == window_scan(path_set@, w, i as nat).0,
                processed@ == window_scan(path_set@, w, i as nat).1,
            decreases n - i,
        {
            let p = path_set[i];
            if !contains_path(&processed, p) {
                let mut window: Vec<Path> = Vec::new();
                window.push(p);
                let ghost done = processed@;
                processed.push(p);
                let mut j: usize = 0;
                while j < n
                    invariant
                        0 <= j <= n,
                        n == path_set@.len(),
                        window@ == seq![p] + near_others(path_set@, p, w, j as nat),
                        processed@ == done + window@,
                    decreases n - j,
                {
                    let q = path_set[j];
                    let d = if q.char_position >= p.char_position {
                        q.char_position - p.char_position
                    } else {
                        p.char_position - q.char_position
                    };
                    if q != p && q.string_index == p.string_index && d <= w {
                        window.push(q);
                        processed.push(q);
                        assert(window@ =~= seq![p] + near_others(path_set@, p, w, (j + 1) as nat));
                    } else {
                        assert(window@ =~= seq![p] + near_others(path_set@, p, w, (j + 1) as nat));
                    }
                    j = j + 1;
                }
                if window.len() > 1 {
                    let mut description = String::from_str("Window-based topology around position ");
                    push_decimal(&mut description, p.char_position);
                    let t = Topology { topology_type: TopologyType::WindowBased, paths: window, description };
                    let ghost before = topologies@;
                    topologies.push(t);
                    assert(topologies_view(topologies@) =~= topologies_view(before).push(t@));
                }
            }
            i = i + 1;
        }
        topologies
    }
}

/// The value of an `EmojiReport`.
pub struct EmojiReportView {
    pub emoji: Seq<char>,
    pub frequency: usize,
    pub paths: Seq<Path>,
    pub topologies: Seq<TopologyView>,
    pub lambda_expression: Seq<char>,
    pub semiotic_meaning: Seq<char>,
}

impl View for EmojiReport {
    type V = EmojiReportView;

    open spec fn view(&self) -> EmojiReportView {
        EmojiReportView {
            emoji: self.emoji@,
            frequency: self.frequency,
            paths: self.paths@,
            topologies: topologies_view(self.topologies@),
            lambda_expression: self.lambda_expression@,
            semiotic_meaning: self.semiotic_meaning@,
        }
    }
}

/// The values of a list of reports.
pub open spec fn reports_view(s: Seq<EmojiReport>) -> Seq<EmojiReportView> {
    s.map_values(|r: EmojiReport| r@)
}

/// The smaller of two lengths.
pub open spec fn min_len(a: int, b: int) -> int {
    if a <= b {
        a
    } else {
        b
    }
}

/// The report on emoji `e`, over the emoji list `l`, the path list `ps`
/// (emoji `i` beside path `i`) and the topologies `ts`, sampled to depth `n`.
pub open spec fn report_of(
    n: usize,
    l: Seq<Seq<char>>,
    ps: Seq<Path>,
    ts: Seq<TopologyView>,
    e: Seq<char>,
) -> EmojiReportView {
    let paths = take_upto(sorted_paths(paths_beside(l, ps, e, min_len(l.len() as int, ps.len() as int) as nat)), n as int);
    EmojiReportView {
        emoji: e,
        frequency: count_in(l, e) as usize,
        paths,
        topologies: take_upto(touching(ts, paths, ts.len()), n as int),
        lambda_expression: emoji_lambda(e),
        semiotic_meaning: emoji_meaning(e),
    }
}

/// Where report `x` goes into `t`: after the last report at least as frequent.
pub open spec fn frequency_insert_pos(t: Seq<EmojiReportView>, x: EmojiReportView) -> int
    decreases t.len(),
{
    if t.len() == 0 {
        0
    } else if t.last().frequency >= x.frequency {
        t.len() as int
    } else {
        frequency_insert_pos(t.drop_last(), x)
    }
}

/// Reports from most to least frequent; equally frequent ones keep their order.
pub open spec fn by_frequency(s: Seq<EmojiReportView>) -> Seq<EmojiReportView>
    decreases s.len(),
{
    if s.len() == 0 {
        s
    } else {
        let t = by_frequency(s.drop_last());
        t.insert(frequency_insert_pos(t, s.last()), s.last())
    }
}

/// The reports on every distinct emoji of `l`.
pub open spec fn reports_for(n: usize, l: Seq<Seq<char>>, ps: Seq<Path>, ts: Seq<TopologyView>) -> Seq<EmojiReportView> {
    by_frequency(distinct(l).map_values(|e: Seq<char>| report_of(n, l, ps, ts, e)))
}

/// The topologies of a path list: by string, then by window.
pub open spec fn topologies_of(ps: Seq<Path>, w: usize) -> Seq<TopologyView> {
    string_groups(ps) + window_scan(ps, w, ps.len() as nat).0
}

/// The `Debug` text of a path.
pub open spec fn path_text(p: Path) -> Seq<char> {
    "Path { string_index: "@ + decimal(p.string_index as nat) + ", char_position: "@ + decimal(
        p.char_position as nat,
    ) + " }"@
}

/// The paths' texts joined by `, `.
pub open spec fn joined_paths(ps: Seq<Path>) -> Seq<char>
    decreases ps.len(),
{
    if ps.len() == 0 {
        Seq::empty()
    } else if ps.len() == 1 {
        path_text(ps[0])
    } else {
        joined_paths(ps.drop_last()) + ", "@ + path_text(ps.last())
    }
}

/// The entries for reports, numbered from 1; each shows at most three paths.
pub open spec fn report_lines(s: Seq<EmojiReportView>) -> Seq<char>
    decreases s.len(),
{
    if s.len() == 0 {
        Seq::empty()
    } else {
        let r = s.last();
        report_lines(s.drop_last()) + decimal(s.len()) + ". "@ + r.emoji + " (frequency: "@ + decimal(
            r.frequency as nat,
        ) + ")\n   Lambda: "@ + r.lambda_expression + "\n   Meaning: "@ + r.semiotic_meaning + "\n   Paths: ["@
            + joined_paths(take_upto(r.paths, 3)) + "]\n   Topologies: "@ + decimal(r.topologies.len())
            + " groups\n\n"@
    }
}

/// The full analysis text of a result.
pub open spec fn poetry_text(r: TopologyAnalysisResult) -> Seq<char> {
    "🔥 Emoji Topology Analysis: S-Combinator Mathematical Poetry 🔥\n\nSession: "@ + r.session_id@ + "\nMathematical Expression: "@ + r.mathematical_expression@
        + "\n\n📊 Corpus Analysis:\n━━━━━━━━━━━━━━━━━━━━━━━━━━━━━━━━━━━━━━━━━━━━━━━━━━━\nCorpus Size: "@ + decimal(r.corpus_size as nat)
        + " strings\nTotal Emojis: "@ + decimal(r.total_emojis as nat)
        + " instances\nUnique Emojis: "@ + decimal(r.unique_emojis as nat)
        + " types\nSampling Depth N: "@ + decimal(r.depth_n as nat)
        + "\n\n🎭 Emoji Reports (Sorted by Frequency):\n━━━━━━━━━━━━━━━━━━━━━━━━━━━━━━━━━━━━━━━━━━━━━━━━━━━\n"@ + report_lines(reports_view(r.emoji_reports@))
        + "\n\n🧮 Mathematical Foundation:\n━━━━━━━━━━━━━━━━━━━━━━━━━━━━━━━━━━━━━━━━━━━━━━━━━━━\nThis analysis implements the pure mathematical formulation from emojis3.md:\n\n1. **Path Definition**: P = ℕ × ℕ (string_index, char_position)\n2. **Topology Definition**: T = 𝒫(P) (power set of paths)\n3. **S-Combinator Pipeline**: S f g ∘ aggregate ∘ map(extract_with_paths)\n4. **Sampling Function**: sample_N : 𝒫(X) → 𝒫(X) where |result| ≤ N\n\n🌟 Topological Insights:\n━━━━━━━━━━━━━━━━━━━━━━━━━━━━━━━━━━━━━━━━━━━━━━━━━━━\nEach emoji exists within multiple topological spaces:\n- **String-level topologies**: Grouping by document structure\n- **Window-based topologies**: Grouping by contextual proximity\n- **Semantic topologies**: Grouping by mathematical meaning\n\nThe S-combinator ensures pure functional composition, where each\ntransformation preserves the mathematical relationships between\nemojis, their paths, and their topological groupings.\n\n🔥 The mathematical beauty of emoji topology burns eternal! 🔥"@
}

fn copy_texts(s: &[String]) -> (r: Vec<String>)
    ensures
        texts(r@) == texts(s@),
{
    let mut r: Vec<String> = Vec::new();
    let mut i: usize = 0;
    while i < s.len()
        invariant
            0 <= i <= s@.len(),
            texts(r@) == texts(s@).take(i as int),
        decreases s@.len() - i,
    {
        let ghost before = r@;
        r.push(s[i].clone());
        assert(texts(r@) =~= texts(before).push(s@[i as int]@));
        assert(texts(r@) =~= texts(s@).take(i + 1));
        i = i + 1;
    }
    assert(texts(s@).take(s@.len() as int) =~= texts(s@));
    r
}

proof fn lemma_beside_outside(l: Seq<Seq<char>>, ps: Seq<Path>, e: Seq<char>, i: nat)
    requires
        i <= l.len(),
        !l.take(i as int).contains(e),
    ensures
        paths_beside(l, ps, e, i) == Seq::<Path>::empty(),
    decreases i,
{
    if i > 0 {
        assert(l.take(i as int)[i - 1] == l[i - 1]);
        if l.take(i - 1).contains(e) {
            let j = choose|j: int| 0 <= j < l.take(i - 1).len() && #[trigger] l.take(i - 1)[j] == e;
            assert(l.take(i as int)[j] == e);
        }
        lemma_beside_outside(l, ps, e, (i - 1) as nat);
    }
}

impl EmojiTopologyAnalyzer {
    /// One report per distinct emoji of `emoji_list`, most frequent first,
    /// given the paths beside each emoji and the topologies of the corpus.
    pub fn f_function(
        &self,
        emoji_list: &[String],
        path_set: &[Path],
        emoji_paths: &Vec<(String, Vec<Path>)>,
        topologies: &[Topology],
    ) -> (r: Vec<EmojiReport>)
        requires
            ({
                let l = texts(emoji_list@);
                let m = min_len(l.len() as int, path_set@.len() as int);
                &&& keys_of(emoji_paths@) == distinct(l.take(m))
                &&& forall|k: int|
                    0 <= k < emoji_paths@.len() ==> (#[trigger] emoji_paths@[k]).1@ == paths_beside(
                        l,
                        path_set@,
                        emoji_paths@[k].0@,
                        m as nat,
                    )
            }),
        ensures
            reports_view(r@) == reports_for(self.depth_n, texts(emoji_list@), path_set@, topologies_view(topologies@)),
    {
        let ghost l = texts(emoji_list@);
        let ghost m = min_len(l.len() as int, path_set@.len() as int);
        let ghost ts = topologies_view(topologies@);
        let ghost u = distinct(l).map_values(|e: Seq<char>| report_of(self.depth_n, l, path_set@, ts, e));
        let counts = self.count_emojis(emoji_list);
        let mut reports: Vec<EmojiReport> = Vec::new();
        let mut k: usize = 0;
        assert(reports_view(reports@) =~= by_frequency(u.take(0)));
        while k < counts.len()
            invariant
                0 <= k <= counts@.len(),
                l == texts(emoji_list@),
                m == min_len(l.len() as int, path_set@.len() as int),
                ts == topologies_view(topologies@),
                u == distinct(l).map_values(|e: Seq<char>| report_of(self.depth_n, l, path_set@, ts, e)),
                keys_of(counts@) == distinct(l),
                forall|j: int| 0 <= j < counts@.len() ==> #[trigger] counts@[j].1 == count_in(l, counts@[j].0@),
                keys_of(emoji_paths@) == distinct(l.take(m)),
                forall|j: int|
                    0 <= j < emoji_paths@.len() ==> (#[trigger] emoji_paths@[j]).1@ == paths_beside(
                        l,
                        path_set@,
                        emoji_paths@[j].0@,
                        m as nat,
                    ),
                reports_view(reports@) == by_frequency(u.take(k as int)),
            decreases counts@.len() - k,
        {
            let e = &counts[k].0;
            let freq = counts[k].1;
            proof {
                assert(keys_of(counts@)[k as int] == e@);
                assert(u[k as int] == report_of(self.depth_n, l, path_set@, ts, e@));
            }
            let paths = match find_key(emoji_paths, e) {
                Some(j) => self.sample_paths(emoji_paths[j].1.as_slice(), self.depth_n),
                None => {
                    proof {
                        lemma_distinct_contains(l.take(m), e@);
                        lemma_beside_outside(l, path_set@, e@, m as nat);
                        assert(take_upto(sorted_paths(Seq::<Path>::empty()), self.depth_n as int) =~= Seq::<Path>::empty());
                    }
                    Vec::new()
                },
            };
            let touched = self.get_emoji_topologies(e.as_str(), paths.as_slice(), topologies);
            let sampled = self.sample_topologies(touched.as_slice(), self.depth_n);
            let report = EmojiReport {
                emoji: e.clone(),
                frequency: freq,
                paths,
                topologies: sampled,
                lambda_expression: self.get_emoji_lambda_expression(e.as_str()),
                semiotic_meaning: self.get_emoji_semiotic_meaning(e.as_str()),
            };
            assert(report@ == u[k as int]);
            let mut j: usize = reports.len();
            assert(reports_view(reports@).subrange(0, j as int) =~= reports_view(reports@));
            while j > 0 && reports[j - 1].frequency < freq
                invariant
                    0 <= j <= reports@.len(),
                    report@.frequency == freq,
                    frequency_insert_pos(reports_view(reports@), report@) == frequency_insert_pos(
                        reports_view(reports@).subrange(0, j as int),
                        report@,
                    ),
                decreases j,
            {
                assert(reports_view(reports@).subrange(0, j as int).drop_last() =~= reports_view(reports@).subrange(0, j - 1));
                j = j - 1;
            }
            let ghost before = reports@;
            let ghost rep = report@;
            reports.insert(j, report);
            proof {
                assert(reports_view(reports@) =~= reports_view(before).insert(j as int, rep));
                assert(u.take(k + 1).drop_last() =~= u.take(k as int));
                assert(u.take(k + 1).last() == rep);
            }
            k = k + 1;
        }
        assert(u.take(counts@.len() as int) =~= u);
        reports
    }

    /// The pair of functions behind the analysis: the emoji list, the
    /// paths, the paths beside each emoji, and the topologies.
    pub fn g_function(&self, emoji_list: &[String], path_set: &[Path]) -> (r: (
        Vec<String>,
        Vec<Path>,
        Vec<(String, Vec<Path>)>,
        Vec<Topology>,
    ))
        ensures
            texts(r.0@) == texts(emoji_list@),
            r.1@ == path_set@,
            ({
                let l = texts(emoji_list@);
                let m = min_len(l.len() as int, path_set@.len() as int);
                &&& keys_of(r.2@) == distinct(l.take(m))
                &&& forall|k: int|
                    0 <= k < r.2@.len() ==> (#[trigger] r.2@[k]).1@ == paths_beside(
                        l,
                        path_set@,
                        r.2@[k].0@,
                        m as nat,
                    )
            }),
            topologies_view(r.3@) == topologies_of(path_set@, self.window_size),
    {
        let emoji_paths = self.associate_paths(emoji_list, path_set);
        let topologies = self.group_topologies(path_set);
        let mut paths: Vec<Path> = Vec::new();
        let mut i: usize = 0;
        while i < path_set.len()
            invariant
                0 <= i <= path_set@.len(),
                paths@ == path_set@.take(i as int),
            decreases path_set@.len() - i,
        {
            paths.push(path_set[i]);
            assert(paths@ =~= path_set@.take(i + 1));
            i = i + 1;
        }
        assert(paths@ =~= path_set@);
        (copy_texts(emoji_list), paths, emoji_paths, topologies)
    }

    /// The reports for an emoji list and its paths: `g`, then `f`.
    pub fn s_combinator_pipeline(&self, emoji_list: &[String], path_set: &[Path]) -> (r: Vec<EmojiReport>)
        ensures
            reports_view(r@) == reports_for(
                self.depth_n,
                texts(emoji_list@),
                path_set@,
                topologies_of(path_set@, self.window_size),
            ),
    {
        let (emoji_list_g, path_set_g, emoji_paths, topologies) = self.g_function(emoji_list, path_set);
        self.f_function(emoji_list_g.as_slice(), path_set_g.as_slice(), &emoji_paths, topologies.as_slice())
    }

    /// Analyses a corpus: every emoji with its paths, counted, grouped and
    /// reported, most frequent first.
    pub fn analyze_corpus(&self, corpus: &[String]) -> (r: TopologyAnalysisResult)
        ensures
            ({
                let l = corpus_emojis(corpus@, corpus@.len() as nat);
                let ps = corpus_paths(corpus@, corpus@.len() as nat);
                &&& r.session_id@ == "emoji-topology-session-123"@
                &&& r.corpus_size == corpus@.len()
                &&& r.total_emojis == l.len()
                &&& reports_view(r.emoji_reports@) == reports_for(self.depth_n, l, ps, topologies_of(ps, self.window_size))
                &&& r.unique_emojis == r.emoji_reports@.len()
                &&& r.depth_n == self.depth_n
                &&& r.mathematical_expression@ == pipeline_expression(self.depth_n as nat)
            }),
            forall|a: int, b: int|
                0 <= a < b < r.emoji_reports@.len() ==> (#[trigger] r.emoji_reports@[a]).frequency >= (
                #[trigger] r.emoji_reports@[b]).frequency,
    {
        let (emoji_list, path_set) = self.aggregate(corpus);
        let reports = self.s_combinator_pipeline(emoji_list.as_slice(), path_set.as_slice());
        let unique = reports.len();
        proof {
            let l = corpus_emojis(corpus@, corpus@.len() as nat);
            let ps = corpus_paths(corpus@, corpus@.len() as nat);
            let u = distinct(l).map_values(
                |e: Seq<char>| report_of(self.depth_n, l, ps, topologies_of(ps, self.window_size), e),
            );
            lemma_by_frequency_in_order(u);
            assert forall|a: int, b: int| 0 <= a < b < reports@.len() implies (#[trigger] reports@[a]).frequency
                >= (#[trigger] reports@[b]).frequency by {
                assert(reports_view(reports@)[a] == reports@[a]@);
                assert(reports_view(reports@)[b] == reports@[b]@);
            }
        }
        TopologyAnalysisResult {
            session_id: Uuid::new_v4().to_string(),
            corpus_size: corpus.len(),
            total_emojis: emoji_list.len(),
            unique_emojis: unique,
            depth_n: self.depth_n,
            emoji_reports: reports,
            mathematical_expression: self.get_mathematical_expression(),
        }
    }
}

impl TopologyAnalysisResult {
    /// One entry per report, numbered from 1.
    pub fn format_emoji_reports(&self) -> (r: String)
        ensures
            r@ == report_lines(reports_view(self.emoji_reports@)),
    {
        let ghost rv = reports_view(self.emoji_reports@);
        let mut out = String::new();
        let n = self.emoji_reports.len();
        let mut i: usize = 0;
        assert(rv.take(0) =~= Seq::<EmojiReportView>::empty());
        while i < n
            invariant
                0 <= i <= n,
                n == rv.len(),
                rv == reports_view(self.emoji_reports@),
                out@ == report_lines(rv.take(i as int)),
            decreases n - i,
        {
            let report = &self.emoji_reports[i];
            push_decimal(&mut out, i + 1);
            push_text(&mut out, ". ");
            push_text(&mut out, report.emoji.as_str());
            push_text(&mut out, " (frequency: ");
            push_decimal(&mut out, report.frequency);
            push_text(&mut out, ")\n   Lambda: ");
            push_text(&mut out, report.lambda_expression.as_str());
            push_text(&mut out, "\n   Meaning: ");
            push_text(&mut out, report.semiotic_meaning.as_str());
            push_text(&mut out, "\n   Paths: [");
            push_paths(&mut out, report.paths.as_slice(), 3);
            push_text(&mut out, "]\n   Topologies: ");
            push_decimal(&mut out, report.topologies.len());
            push_text(&mut out, " groups\n\n");
            proof {
                let cur = rv.take(i + 1);
                assert(cur.drop_last() =~= rv.take(i as int));
                assert(cur.last() == report@);
                assert(report@.topologies.len() == report.topologies@.len());
            }
            i = i + 1;
        }
        assert(rv.take(n as int) =~= rv);
        out
    }

    /// The full analysis as text: figures, one entry per report, and the
    /// formulation behind it.
    pub fn to_mathematical_poetry(&self) -> (r: String)
        ensures
            r@ == poetry_text(*self),
    {
        let mut r = String::from_str("🔥 Emoji Topology Analysis: S-Combinator Mathematical Poetry 🔥\n\nSession: ");
        push_text(&mut r, self.session_id.as_str());
        push_text(&mut r, "\nMathematical Expression: ");
        push_text(&mut r, self.mathematical_expression.as_str());
        push_text(&mut r, "\n\n📊 Corpus Analysis:\n━━━━━━━━━━━━━━━━━━━━━━━━━━━━━━━━━━━━━━━━━━━━━━━━━━━\nCorpus Size: ");
        push_decimal(&mut r, self.corpus_size);
        push_text(&mut r, " strings\nTotal Emojis: ");
        push_decimal(&mut r, self.total_emojis);
        push_text(&mut r, " instances\nUnique Emojis: ");
        push_decimal(&mut r, self.unique_emojis);
        push_text(&mut r, " types\nSampling Depth N: ");
        push_decimal(&mut r, self.depth_n);
        push_text(&mut r, "\n\n🎭 Emoji Reports (Sorted by Frequency):\n━━━━━━━━━━━━━━━━━━━━━━━━━━━━━━━━━━━━━━━━━━━━━━━━━━━\n");
        let reports = self.format_emoji_reports();
        push_text(&mut r, reports.as_str());
        push_text(&mut r, "\n\n🧮 Mathematical Foundation:\n━━━━━━━━━━━━━━━━━━━━━━━━━━━━━━━━━━━━━━━━━━━━━━━━━━━\nThis analysis implements the pure mathematical formulation from emojis3.md:\n\n1. **Path Definition**: P = ℕ × ℕ (string_index, char_position)\n2. **Topology Definition**: T = 𝒫(P) (power set of paths)\n3. **S-Combinator Pipeline**: S f g ∘ aggregate ∘ map(extract_with_paths)\n4. **Sampling Function**: sample_N : 𝒫(X) → 𝒫(X) where |result| ≤ N\n\n🌟 Topological Insights:\n━━━━━━━━━━━━━━━━━━━━━━━━━━━━━━━━━━━━━━━━━━━━━━━━━━━\nEach emoji exists within multiple topological spaces:\n- **String-level topologies**: Grouping by document structure\n- **Window-based topologies**: Grouping by contextual proximity\n- **Semantic topologies**: Grouping by mathematical meaning\n\nThe S-combinator ensures pure functional composition, where each\ntransformation preserves the mathematical relationships between\nemojis, their paths, and their topological groupings.\n\n🔥 The mathematical beauty of emoji topology burns eternal! 🔥");
        r
    }
}

/// Appends the texts of the first `n` paths, joined by `, `.
fn push_paths(s: &mut String, paths: &[Path], n: usize)
    ensures
        final(s)@ == old(s)@ + joined_paths(take_upto(paths@, n as int)),
{
    let m = if paths.len() <= n { paths.len() } else { n };
    let ghost ps = take_upto(paths@, n as int);
    let mut i: usize = 0;
    assert(ps.take(0) =~= Seq::<Path>::empty());
    assert(old(s)@ + joined_paths(ps.take(0)) =~= old(s)@);
    while i < m
        invariant
            0 <= i <= m,
            m == ps.len(),
            ps == take_upto(paths@, n as int),
            forall|j: int| 0 <= j < m ==> ps[j] == paths@[j],
            s@ == old(s)@ + joined_paths(ps.take(i as int)),
        decreases m - i,
    {
        if i > 0 {
            push_text(s, ", ");
        }
        let p = paths[i];
        push_text(s, "Path { string_index: ");
        push_decimal(s, p.string_index);
        push_text(s, ", char_position: ");
        push_decimal(s, p.char_position);
        push_text(s, " }");
        proof {
            let cur = ps.take(i + 1);
            assert(cur.drop_last() =~= ps.take(i as int));
            assert(cur.last() == p);
            if i == 0 {
                assert(cur =~= seq![p]);
            }
            assert(s@ =~= old(s)@ + joined_paths(cur));
        }
        i = i + 1;
    }
    assert(ps.take(m as int) =~= ps);
}

proof fn lemma_path_insert_pos(t: Seq<Path>, x: Path)
    requires
        forall|a: int, b: int| 0 <= a < b < t.len() ==> path_le(t[a], t[b]),
    ensures
        0 <= path_insert_pos(t, x) <= t.len(),
        forall|j: int| 0 <= j < path_insert_pos(t, x) ==> path_le(#[trigger] t[j], x),
        forall|j: int| path_insert_pos(t, x) <= j < t.len() ==> !path_le(#[trigger] t[j], x),
    decreases t.len(),
{
    if t.len() > 0 && !path_le(t.last(), x) {
        let u = t.drop_last();
        lemma_path_insert_pos(u, x);
        assert forall|j: int| 0 <= j < path_insert_pos(t, x) implies path_le(#[trigger] t[j], x) by {
            assert(t[j] == u[j]);
        }
        assert forall|j: int| path_insert_pos(t, x) <= j < t.len() implies !path_le(#[trigger] t[j], x) by {
            if j < t.len() - 1 {
                assert(t[j] == u[j]);
            }
        }
    } else if t.len() > 0 {
        assert forall|j: int| 0 <= j < t.len() implies path_le(#[trigger] t[j], x) by {
            if j < t.len() - 1 {
                assert(path_le(t[j], t[t.len() - 1]));
            }
        }
    }
}

/// Sampled paths come in order: by string, then by position.
pub proof fn lemma_sorted_paths_in_order(s: Seq<Path>)
    ensures
        sorted_paths(s).len() == s.len(),
        forall|a: int, b: int|
            0 <= a < b < sorted_paths(s).len() ==> path_le(#[trigger] sorted_paths(s)[a], #[trigger] sorted_paths(s)[b]),
    decreases s.len(),
{
    if s.len() > 0 {
        let x = s.last();
        lemma_sorted_paths_in_order(s.drop_last());
        let t = sorted_paths(s.drop_last());
        lemma_path_insert_pos(t, x);
        let p = path_insert_pos(t, x);
        let r = t.insert(p, x);
        assert(r == sorted_paths(s));
        assert forall|a: int, b: int| 0 <= a < b < r.len() implies path_le(#[trigger] r[a], #[trigger] r[b]) by {
            if b < p {
                assert(r[a] == t[a] && r[b] == t[b]);
            } else if b == p {
                assert(r[a] == t[a]);
            } else if a == p {
                assert(r[b] == t[b - 1]);
            } else if a < p {
                assert(r[a] == t[a] && r[b] == t[b - 1]);
            } else {
                assert(r[a] == t[a - 1] && r[b] == t[b - 1]);
            }
        }
    }
}

proof fn lemma_frequency_insert_pos(t: Seq<EmojiReportView>, x: EmojiReportView)
    requires
        forall|a: int, b: int| 0 <= a < b < t.len() ==> t[a].frequency >= t[b].frequency,
    ensures
        0 <= frequency_insert_pos(t, x) <= t.len(),
        forall|j: int| 0 <= j < frequency_insert_pos(t, x) ==> (#[trigger] t[j]).frequency >= x.frequency,
        forall|j: int| frequency_insert_pos(t, x) <= j < t.len() ==> (#[trigger] t[j]).frequency < x.frequency,
    decreases t.len(),
{
    if t.len() > 0 && t.last().frequency < x.frequency {
        let u = t.drop_last();
        lemma_frequency_insert_pos(u, x);
        assert forall|j: int| 0 <= j < frequency_insert_pos(t, x) implies (#[trigger] t[j]).frequency >= x.frequency by {
            assert(t[j] == u[j]);
        }
        assert forall|j: int| frequency_insert_pos(t, x) <= j < t.len() implies (#[trigger] t[j]).frequency < x.frequency by {
            if j < t.len() - 1 {
                assert(t[j] == u[j]);
            }
        }
    } else if t.len() > 0 {
        assert forall|j: int| 0 <= j < t.len() implies (#[trigger] t[j]).frequency >= x.frequency by {
            if j < t.len() - 1 {
                assert(t[j].frequency >= t[t.len() - 1].frequency);
            }
        }
    }
}

/// Reports come from most to least frequent, and none is lost or added.
pub proof fn lemma_by_frequency_in_order(s: Seq<EmojiReportView>)
    ensures
        by_frequency(s).len() == s.len(),
        by_frequency(s).to_multiset() == s.to_multiset(),
        forall|a: int, b: int|
            0 <= a < b < by_frequency(s).len() ==> (#[trigger] by_frequency(s)[a]).frequency >= (
            #[trigger] by_frequency(s)[b]).frequency,
    decreases s.len(),
{
    if s.len() > 0 {
        let u = s.drop_last();
        let x = s.last();
        lemma_by_frequency_in_order(u);
        let t = by_frequency(u);
        lemma_frequency_insert_pos(t, x);
        let p = frequency_insert_pos(t, x);
        let r = t.insert(p, x);
        assert(r == by_frequency(s));
        assert forall|a: int, b: int| 0 <= a < b < r.len() implies (#[trigger] r[a]).frequency >= (
        #[trigger] r[b]).frequency by {
            if b < p {
                assert(r[a] == t[a] && r[b] == t[b]);
            } else if b == p {
                assert(r[a] == t[a]);
            } else if a == p {
                assert(r[b] == t[b - 1]);
            } else if a < p {
                assert(r[a] == t[a] && r[b] == t[b - 1]);
            } else {
                assert(r[a] == t[a - 1] && r[b] == t[b - 1]);
            }
        }
        vstd::seq_lib::to_multiset_insert(t, p, x);
        vstd::seq_lib::to_multiset_build(u, x);
        assert(u.push(x) == s);
    }
}

} // verus!
