//! Neural-network operations named by emoji, and architectures written as
//! emoji sequences, rendered as S-combinator expressions and verse.
use vstd::prelude::*;
use vstd::string::*;
use crate::text::{push_char, push_decimal, push_text, decimal, str_eq};

verus! {

/// The tensor operation that an emoji stands for.
#[derive(Clone, Copy, Debug, PartialEq, Eq, Structural)]
pub enum OperationType {
    MatMul,
    Add,
    Sub,
    Mul,
    Div,
    ReLU,
    Sigmoid,
    Tanh,
    Softmax,
    Linear,
    Conv2d,
    BatchNorm,
    Dropout,
    Reshape,
    Transpose,
    Concat,
    Split,
    Attention,
    Embedding,
    LayerNorm,
    GELU,
    Gradient,
    Backward,
    Forward,
    Optimize,
}

/// One emoji-named operation, with its S-combinator form.
#[derive(Clone, Debug)]
pub struct NeuralOperation {
    pub emoji: String,
    pub operation_type: OperationType,
    pub lambda_expr: String,
    pub description: String,
    pub tensor_shape_hint: Option<Vec<usize>>,
}

/// The value of a `NeuralOperation`.
pub struct NeuralOperationView {
    pub emoji: Seq<char>,
    pub operation_type: OperationType,
    pub lambda_expr: Seq<char>,
    pub description: Seq<char>,
    pub tensor_shape_hint: Option<Seq<usize>>,
}

impl View for NeuralOperation {
    type V = NeuralOperationView;

    open spec fn view(&self) -> NeuralOperationView {
        NeuralOperationView {
            emoji: self.emoji@,
            operation_type: self.operation_type,
            lambda_expr: self.lambda_expr@,
            description: self.description@,
            tensor_shape_hint: match self.tensor_shape_hint {
                Some(v) => Some(v@),
                None => None,
            },
        }
    }
}

/// The values of a list of operations.
pub open spec fn operations_view(s: Seq<NeuralOperation>) -> Seq<NeuralOperationView> {
    s.map_values(|o: NeuralOperation| o@)
}

impl NeuralOperation {
    /// A copy with the same value.
    pub fn duplicate(&self) -> (r: NeuralOperation)
        ensures
            r@ == self@,
    {
        let tensor_shape_hint = match &self.tensor_shape_hint {
            Some(v) => {
                let c = v.clone();
                assert(c@ =~= v@);
                Some(c)
            },
            None => None,
        };
        NeuralOperation {
            emoji: self.emoji.clone(),
            operation_type: self.operation_type,
            lambda_expr: self.lambda_expr.clone(),
            description: self.description.clone(),
            tensor_shape_hint,
        }
    }
}

fn operation(
    emoji: &str,
    operation_type: OperationType,
    lambda_expr: &str,
    description: &str,
    tensor_shape_hint: Option<Vec<usize>>,
) -> (r: NeuralOperation)
    ensures
        r.emoji@ == emoji@,
        r.operation_type == operation_type,
        r.lambda_expr@ == lambda_expr@,
        r.description@ == description@,
        r.tensor_shape_hint == tensor_shape_hint,
{
    NeuralOperation {
        emoji: String::from_str(emoji),
        operation_type,
        lambda_expr: String::from_str(lambda_expr),
        description: String::from_str(description),
        tensor_shape_hint,
    }
}

/// The operations known by emoji. No two share an emoji.
#[derive(Clone, Debug)]
pub struct NeuralEmojiMap {
    pub operations: Vec<NeuralOperation>,
}

/// The emojis of a list of operations.
pub open spec fn emojis_of(s: Seq<NeuralOperation>) -> Seq<Seq<char>> {
    s.map_values(|o: NeuralOperation| o.emoji@)
}

/// The operation in `ops` whose emoji is the single character `c`, if any.
pub open spec fn has_emoji_char(ops: Seq<NeuralOperation>, c: char) -> bool {
    exists|k: int| 0 <= k < ops.len() && #[trigger] ops[k].emoji@ == seq![c]
}

/// `op` is the operation of `ops` named by the single character `c`.
pub open spec fn is_operation_for(ops: Seq<NeuralOperation>, op: NeuralOperationView, c: char) -> bool {
    exists|k: int| 0 <= k < ops.len() && #[trigger] ops[k]@ == op && ops[k].emoji@ == seq![c]
}

impl NeuralEmojiMap {
    /// Emojis are unique keys.
    pub open spec fn wf(&self) -> bool {
        forall|i: int, j: int|
            0 <= i < j < self.operations@.len() ==> #[trigger] self.operations@[i].emoji@
                != #[trigger] self.operations@[j].emoji@
    }

    /// The operation named by `emoji`, if there is one.
    pub fn get_operation(&self, emoji: &str) -> (r: Option<&NeuralOperation>)
        ensures
            match r {
                Some(op) => exists|k: int|
                    0 <= k < self.operations@.len() && #[trigger] self.operations@[k] == *op && op.emoji@
                        == emoji@,
                None => forall|k: int|
                    0 <= k < self.operations@.len() ==> #[trigger] self.operations@[k].emoji@ != emoji@,
            },
    {
        let mut k: usize = 0;
        while k < self.operations.len()
            invariant
                0 <= k <= self.operations@.len(),
                forall|j: int| 0 <= j < k ==> #[trigger] self.operations@[j].emoji@ != emoji@,
            decreases self.operations@.len() - k,
        {
            if str_eq(self.operations[k].emoji.as_str(), emoji) {
                return Some(&self.operations[k]);
            }
            k = k + 1;
        }
        None
    }

    /// Position of the operation whose emoji is the single character `c`.
    fn position_of_char(&self, c: char) -> (r: Option<usize>)
        ensures
            match r {
                Some(k) => k < self.operations@.len() && self.operations@[k as int].emoji@ == seq![c],
                None => !has_emoji_char(self.operations@, c),
            },
    {
        let mut k: usize = 0;
        while k < self.operations.len()
            invariant
                0 <= k <= self.operations@.len(),
                forall|j: int| 0 <= j < k ==> #[trigger] self.operations@[j].emoji@ != seq![c],
            decreases self.operations@.len() - k,
        {
            let e = self.operations[k].emoji.as_str();
            if e.unicode_len() == 1 && e.get_char(0) == c {
                assert(e@ =~= seq![c]);
                return Some(k);
            }
            k = k + 1;
        }
        None
    }

    /// Every emoji that names an operation.
    pub fn list_emojis(&self) -> (r: Vec<String>)
        ensures
            r@.map_values(|s: String| s@) == emojis_of(self.operations@),
    {
        let mut r: Vec<String> = Vec::new();
        let mut k: usize = 0;
        while k < self.operations.len()
            invariant
                0 <= k <= self.operations@.len(),
                r@.map_values(|s: String| s@) == emojis_of(self.operations@.subrange(0, k as int)),
            decreases self.operations@.len() - k,
        {
            let ghost before = r@;
            r.push(self.operations[k].emoji.clone());
            proof {
                assert(r@.map_values(|s: String| s@) =~= before.map_values(|s: String| s@).push(
                    self.operations@[k as int].emoji@,
                ));
                assert(emojis_of(self.operations@.subrange(0, k + 1)) =~= emojis_of(
                    self.operations@.subrange(0, k as int),
                ).push(self.operations@[k as int].emoji@));
            }
            k = k + 1;
        }
        assert(self.operations@.subrange(0, self.operations@.len() as int) =~= self.operations@);
        r
    }

    /// Reads an architecture from an emoji sequence, one operation per
    /// character. The first character that names no operation is reported
    /// as `Unknown neural emoji: <c>`.
    pub fn parse_neural_architecture(&self, emoji_sequence: &str) -> (r: Result<NeuralArchitecture, String>)
        ensures
            match r {
                Ok(a) => {
                    &&& forall|i: int|
                        0 <= i < emoji_sequence@.len() ==> has_emoji_char(self.operations@, #[trigger] emoji_sequence@[i])
                    &&& a.layers@.len() == emoji_sequence@.len()
                    &&& forall|i: int|
                        0 <= i < a.layers@.len() ==> is_operation_for(
                            self.operations@,
                            (#[trigger] a.layers@[i])@,
                            emoji_sequence@[i],
                        )
                },
                Err(msg) => exists|i: int|
                    0 <= i < emoji_sequence@.len() && !has_emoji_char(self.operations@, #[trigger] emoji_sequence@[i])
                        && (forall|j: int| 0 <= j < i ==> has_emoji_char(self.operations@, #[trigger] emoji_sequence@[j]))
                        && msg@ == "Unknown neural emoji: "@.push(emoji_sequence@[i]),
            },
    {
        let n = emoji_sequence.unicode_len();
        let mut layers: Vec<NeuralOperation> = Vec::new();
        let mut i: usize = 0;
        while i < n
            invariant
                0 <= i <= n,
                n == emoji_sequence@.len(),
                layers@.len() == i,
                forall|j: int| 0 <= j < i ==> has_emoji_char(self.operations@, #[trigger] emoji_sequence@[j]),
                forall|j: int|
                    0 <= j < i ==> is_operation_for(self.operations@, (#[trigger] layers@[j])@, emoji_sequence@[j]),
            decreases n - i,
        {
            let c = emoji_sequence.get_char(i);
            match self.position_of_char(c) {
                Some(k) => {
                    let op = self.operations[k].duplicate();
                    layers.push(op);
                    assert(layers@[i as int]@ == self.operations@[k as int]@);
                    assert(is_operation_for(self.operations@, layers@[i as int]@, c));
                },
                None => {
                    let mut msg = String::from_str("Unknown neural emoji: ");
                    push_char(&mut msg, c);
                    return Err(msg);
                },
            }
            i = i + 1;
        }
        Ok(NeuralArchitecture { layers })
    }
}

impl NeuralEmojiMap {
    /// The operations that compositions spell with: the core activations
    /// and layers, with reshape, concatenation and addition to join them.
    pub fn with_composition_operations() -> (r: NeuralEmojiMap)
        ensures
            r.wf(),
            emojis_of(r.operations@) == seq![
                "🔥"@,
                "⚡"@,
                "🌊"@,
                "🌀"@,
                "🎭"@,
                "📏"@,
                "🕸️"@,
                "👁️"@,
                "🚀"@,
                "🔄"@,
                "🔗"@,
                "➕"@,
                "⚖️"@,
            ],
            types_of(r.operations@) == seq![
                OperationType::MatMul,
                OperationType::ReLU,
                OperationType::Sigmoid,
                OperationType::Tanh,
                OperationType::Softmax,
                OperationType::Linear,
                OperationType::Conv2d,
                OperationType::Attention,
                OperationType::Optimize,
                OperationType::Reshape,
                OperationType::Concat,
                OperationType::Add,
                OperationType::BatchNorm,
            ],
            lambdas_of(r.operations@) == seq![
                "S (K matmul) I"@,
                "S (S (K max) (K 0)) I"@,
                "S (K (λx. 1 / (1 + exp(-x)))) I"@,
                "S (K tanh) I"@,
                "S (K softmax) I"@,
                "S (S (K matmul) weight) (K bias)"@,
                "S (S (S (K conv2d) kernel) stride) padding"@,
                "S (S (S (K attention) query) key) value"@,
                "S (S (S (K optimize) params) gradients) learning_rate"@,
                "S (K reshape) I"@,
                "S (K concat) I"@,
                "S (K add) I"@,
                "S (K batch_norm) I"@,
            ],
    {
        let mut operations: Vec<NeuralOperation> = Vec::new();
        operations.push(operation("🔥", OperationType::MatMul, "S (K matmul) I",
            "Matrix multiplication - the S combinator burns through tensor dimensions", None));
        operations.push(operation("⚡", OperationType::ReLU, "S (S (K max) (K 0)) I",
            "ReLU activation - lightning strikes negative values", None));
        operations.push(operation("🌊", OperationType::Sigmoid, "S (K (λx. 1 / (1 + exp(-x)))) I",
            "Sigmoid activation - wave function curves reality", None));
        operations.push(operation("🌀", OperationType::Tanh, "S (K tanh) I",
            "Tanh activation - hyperbolic spiral transformation", None));
        operations.push(operation("🎭", OperationType::Softmax, "S (K softmax) I",
            "Softmax - probability mask reveals hidden truth", None));
        operations.push(operation("📏", OperationType::Linear, "S (S (K matmul) weight) (K bias)",
            "Linear layer - measuring transformation through space", None));
        operations.push(operation("🕸️", OperationType::Conv2d, "S (S (S (K conv2d) kernel) stride) padding",
            "Conv2d - convolutional web captures spatial patterns", None));
        operations.push(operation("👁️", OperationType::Attention, "S (S (S (K attention) query) key) value",
            "Attention mechanism - the eye that sees all connections", None));
        operations.push(operation("🚀", OperationType::Optimize, "S (S (S (K optimize) params) gradients) learning_rate",
            "Optimizer - rocket propels parameters toward loss minima", None));
        operations.push(operation("🔄", OperationType::Reshape, "S (K reshape) I",
            "Reshape - dimensional transformation", None));
        operations.push(operation("🔗", OperationType::Concat, "S (K concat) I",
            "Concatenation - tensor chaining", None));
        operations.push(operation("➕", OperationType::Add, "S (K add) I",
            "Addition - residual connections", None));
        operations.push(operation("⚖️", OperationType::BatchNorm, "S (K batch_norm) I",
            "Batch normalization - balance brings stability", None));
        let r = NeuralEmojiMap { operations };
        proof {
            reveal_strlit("🔥");
            reveal_strlit("⚡");
            reveal_strlit("🌊");
            reveal_strlit("🌀");
            reveal_strlit("🎭");
            reveal_strlit("📏");
            reveal_strlit("🕸️");
            reveal_strlit("👁️");
            reveal_strlit("🚀");
            reveal_strlit("🔄");
            reveal_strlit("🔗");
            reveal_strlit("➕");
            reveal_strlit("⚖️");
            let es = emojis_of(r.operations@);
            assert forall|i: int, j: int| 0 <= i < j < 13 implies es[i][0] != es[j][0] by {}
            assert forall|i: int, j: int|
                0 <= i < j < r.operations@.len() implies #[trigger] r.operations@[i].emoji@
                    != #[trigger] r.operations@[j].emoji@ by {
                assert(es[i] == r.operations@[i].emoji@);
                assert(es[j] == r.operations@[j].emoji@);
            }
            assert(es =~= seq![
                "🔥"@,
                "⚡"@,
                "🌊"@,
                "🌀"@,
                "🎭"@,
                "📏"@,
                "🕸️"@,
                "👁️"@,
                "🚀"@,
                "🔄"@,
                "🔗"@,
                "➕"@,
                "⚖️"@,
            ]);
        }
        assert(types_of(r.operations@) =~= seq![
                OperationType::MatMul,
                OperationType::ReLU,
                OperationType::Sigmoid,
                OperationType::Tanh,
                OperationType::Softmax,
                OperationType::Linear,
                OperationType::Conv2d,
                OperationType::Attention,
                OperationType::Optimize,
                OperationType::Reshape,
                OperationType::Concat,
                OperationType::Add,
                OperationType::BatchNorm,
            ]);
        assert(lambdas_of(r.operations@) =~= seq![
                "S (K matmul) I"@,
                "S (S (K max) (K 0)) I"@,
                "S (K (λx. 1 / (1 + exp(-x)))) I"@,
                "S (K tanh) I"@,
                "S (K softmax) I"@,
                "S (S (K matmul) weight) (K bias)"@,
                "S (S (S (K conv2d) kernel) stride) padding"@,
                "S (S (S (K attention) query) key) value"@,
                "S (S (S (K optimize) params) gradients) learning_rate"@,
                "S (K reshape) I"@,
                "S (K concat) I"@,
                "S (K add) I"@,
                "S (K batch_norm) I"@,
            ]);
        r
    }
}

impl Default for NeuralEmojiMap {
    fn default() -> (r: NeuralEmojiMap)
        ensures
            r.wf(),
            emojis_of(r.operations@) == seq![
                "🔥"@, "⚡"@, "🌊"@, "🌀"@, "🎭"@, "📏"@,
                "🕸️"@, "⚖️"@, "🎲"@, "👁️"@, "💎"@, "🚀"@,
            ],
            types_of(r.operations@) == seq![
                OperationType::MatMul,
                OperationType::ReLU,
                OperationType::Sigmoid,
                OperationType::Tanh,
                OperationType::Softmax,
                OperationType::Linear,
                OperationType::Conv2d,
                OperationType::BatchNorm,
                OperationType::Dropout,
                OperationType::Attention,
                OperationType::Embedding,
                OperationType::Optimize,
            ],
            lambdas_of(r.operations@) == seq![
                "S (K matmul) I"@,
                "S (S (K max) (K 0)) I"@,
                "S (K (λx. 1 / (1 + exp(-x)))) I"@,
                "S (K tanh) I"@,
                "S (K softmax) I"@,
                "S (S (K matmul) weight) (K bias)"@,
                "S (S (S (K conv2d) kernel) stride) padding"@,
                "S (S (K batch_norm) running_mean) running_var"@,
                "S (S (K dropout) prob) training"@,
                "S (S (S (K attention) query) key) value"@,
                "S (K embedding_lookup) indices"@,
                "S (S (S (K optimize) params) gradients) learning_rate"@,
            ],
    {
        let mut operations: Vec<NeuralOperation> = Vec::new();
        operations.push(operation("🔥", OperationType::MatMul, "S (K matmul) I",
            "Matrix multiplication - the S combinator burns through tensor dimensions", Some(vec![0, 0])));
        operations.push(operation("⚡", OperationType::ReLU, "S (S (K max) (K 0)) I",
            "ReLU activation - lightning strikes negative values", None));
        operations.push(operation("🌊", OperationType::Sigmoid, "S (K (λx. 1 / (1 + exp(-x)))) I",
            "Sigmoid activation - wave function curves reality", None));
        operations.push(operation("🌀", OperationType::Tanh, "S (K tanh) I",
            "Tanh activation - hyperbolic spiral transformation", None));
        operations.push(operation("🎭", OperationType::Softmax, "S (K softmax) I",
            "Softmax - probability mask reveals hidden truth", None));
        operations.push(operation("📏", OperationType::Linear, "S (S (K matmul) weight) (K bias)",
            "Linear layer - measuring transformation through space", Some(vec![0, 0])));
        operations.push(operation("🕸️", OperationType::Conv2d, "S (S (S (K conv2d) kernel) stride) padding",
            "Conv2d - convolutional web captures spatial patterns", Some(vec![0, 0, 0, 0])));
        operations.push(operation("⚖️", OperationType::BatchNorm, "S (S (K batch_norm) running_mean) running_var",
            "Batch normalization - balance brings stability to chaos", None));
        operations.push(operation("🎲", OperationType::Dropout, "S (S (K dropout) prob) training",
            "Dropout - stochastic dice rolls for regularization", None));
        operations.push(operation("👁️", OperationType::Attention, "S (S (S (K attention) query) key) value",
            "Attention mechanism - the eye that sees all connections", Some(vec![0, 0, 0])));
        operations.push(operation("💎", OperationType::Embedding, "S (K embedding_lookup) indices",
            "Embedding - jewel that maps discrete to continuous space", Some(vec![0, 0])));
        operations.push(operation("🚀", OperationType::Optimize, "S (S (S (K optimize) params) gradients) learning_rate",
            "Optimizer - rocket propels parameters toward loss minima", None));
        let r = NeuralEmojiMap { operations };
        proof {
            reveal_strlit("🔥");
            reveal_strlit("⚡");
            reveal_strlit("🌊");
            reveal_strlit("🌀");
            reveal_strlit("🎭");
            reveal_strlit("📏");
            reveal_strlit("🕸️");
            reveal_strlit("⚖️");
            reveal_strlit("🎲");
            reveal_strlit("👁️");
            reveal_strlit("💎");
            reveal_strlit("🚀");
            let es = emojis_of(r.operations@);
            assert forall|i: int, j: int| 0 <= i < j < 12 implies es[i][0] != es[j][0] by {}
            assert forall|i: int, j: int|
                0 <= i < j < r.operations@.len() implies #[trigger] r.operations@[i].emoji@
                    != #[trigger] r.operations@[j].emoji@ by {
                assert(es[i] == r.operations@[i].emoji@);
                assert(es[j] == r.operations@[j].emoji@);
            }
            assert(emojis_of(r.operations@) =~= seq![
                "🔥"@, "⚡"@, "🌊"@, "🌀"@, "🎭"@, "📏"@,
                "🕸️"@, "⚖️"@, "🎲"@, "👁️"@, "💎"@, "🚀"@,
            ]);
        }
        assert(types_of(r.operations@) =~= seq![
                OperationType::MatMul,
                OperationType::ReLU,
                OperationType::Sigmoid,
                OperationType::Tanh,
                OperationType::Softmax,
                OperationType::Linear,
                OperationType::Conv2d,
                OperationType::BatchNorm,
                OperationType::Dropout,
                OperationType::Attention,
                OperationType::Embedding,
                OperationType::Optimize,
            ]);
        assert(lambdas_of(r.operations@) =~= seq![
                "S (K matmul) I"@,
                "S (S (K max) (K 0)) I"@,
                "S (K (λx. 1 / (1 + exp(-x)))) I"@,
                "S (K tanh) I"@,
                "S (K softmax) I"@,
                "S (S (K matmul) weight) (K bias)"@,
                "S (S (S (K conv2d) kernel) stride) padding"@,
                "S (S (K batch_norm) running_mean) running_var"@,
                "S (S (K dropout) prob) training"@,
                "S (S (S (K attention) query) key) value"@,
                "S (K embedding_lookup) indices"@,
                "S (S (S (K optimize) params) gradients) learning_rate"@,
            ]);
        r
    }
}

/// The operation types of a list of operations.
pub open spec fn types_of(s: Seq<NeuralOperation>) -> Seq<OperationType> {
    s.map_values(|o: NeuralOperation| o.operation_type)
}

/// A network as a sequence of operations.
#[derive(Clone, Debug)]
pub struct NeuralArchitecture {
    pub layers: Vec<NeuralOperation>,
}

/// The S-combinator expression of a chain of layer expressions: `I` for
/// none, else each layer folded in as `S (<so far>) (<layer>)`.
pub open spec fn composed_lambda(exprs: Seq<Seq<char>>) -> Seq<char>
    decreases exprs.len(),
{
    if exprs.len() == 0 {
        "I"@
    } else if exprs.len() == 1 {
        exprs[0]
    } else {
        "S ("@ + composed_lambda(exprs.drop_last()) + ") ("@ + exprs.last() + ")"@
    }
}

/// The lambda expressions of a list of operations.
pub open spec fn lambdas_of(s: Seq<NeuralOperation>) -> Seq<Seq<char>> {
    s.map_values(|o: NeuralOperation| o.lambda_expr@)
}

/// The verse lines for layers, numbered from 1.
pub open spec fn poem_lines(s: Seq<NeuralOperation>) -> Seq<char>
    decreases s.len(),
{
    if s.len() == 0 {
        Seq::empty()
    } else {
        poem_lines(s.drop_last()) + decimal(s.len()) + ". "@ + s.last().emoji@ + " - "@ + s.last().description@
            + "\n"@
    }
}

/// The complete verse for layers.
pub open spec fn poem_of(s: Seq<NeuralOperation>) -> Seq<char> {
    "In the realm where S combinators burn,\n"@ + "Neural emojis dance and turn:\n\n"@ + poem_lines(s)
        + "\nThrough lambda calculus they flow,\n"@ + "Making tensors dance and glow! 🔥✨\n"@
}

impl NeuralArchitecture {
    /// The whole network as one S-combinator expression.
    pub fn to_lambda_expression(&self) -> (r: String)
        ensures
            r@ == composed_lambda(lambdas_of(self.layers@)),
    {
        let n = self.layers.len();
        if n == 0 {
            return String::from_str("I");
        }
        let mut expr = self.layers[0].lambda_expr.clone();
        let mut i: usize = 1;
        proof {
            assert(lambdas_of(self.layers@.subrange(0, 1)) =~= seq![self.layers@[0].lambda_expr@]);
        }
        while i < n
            invariant
                1 <= i <= n,
                n == self.layers@.len(),
                expr@ == composed_lambda(lambdas_of(self.layers@.subrange(0, i as int))),
            decreases n - i,
        {
            let mut next = String::from_str("S (");
            push_text(&mut next, expr.as_str());
            push_text(&mut next, ") (");
            push_text(&mut next, self.layers[i].lambda_expr.as_str());
            push_text(&mut next, ")");
            proof {
                let prev = lambdas_of(self.layers@.subrange(0, i as int));
                let cur = lambdas_of(self.layers@.subrange(0, i + 1));
                assert(cur.drop_last() =~= prev);
                assert(cur.last() == self.layers@[i as int].lambda_expr@);
            }
            expr = next;
            i = i + 1;
        }
        assert(self.layers@.subrange(0, n as int) =~= self.layers@);
        expr
    }

    /// A short poem that lists the layers in order.
    pub fn to_poem(&self) -> (r: String)
        ensures
            r@ == poem_of(self.layers@),
    {
        let mut poem = String::new();
        push_text(&mut poem, "In the realm where S combinators burn,\n");
        push_text(&mut poem, "Neural emojis dance and turn:\n\n");
        let ghost head = poem@;
        let n = self.layers.len();
        let mut i: usize = 0;
        assert(self.layers@.subrange(0, 0) =~= Seq::<NeuralOperation>::empty());
        assert(head + poem_lines(self.layers@.subrange(0, 0)) =~= head);
        while i < n
            invariant
                0 <= i <= n,
                n == self.layers@.len(),
                poem@ == head + poem_lines(self.layers@.subrange(0, i as int)),
            decreases n - i,
        {
            push_decimal(&mut poem, i + 1);
            push_text(&mut poem, ". ");
            push_text(&mut poem, self.layers[i].emoji.as_str());
            push_text(&mut poem, " - ");
            push_text(&mut poem, self.layers[i].description.as_str());
            push_text(&mut poem, "\n");
            proof {
                let cur = self.layers@.subrange(0, i + 1);
                assert(cur.drop_last() =~= self.layers@.subrange(0, i as int));
                assert(cur.last() == self.layers@[i as int]);
                assert(cur.len() == i + 1);
                assert(poem@ =~= head + poem_lines(cur));
            }
            i = i + 1;
        }
        push_text(&mut poem, "\nThrough lambda calculus they flow,\n");
        push_text(&mut poem, "Making tensors dance and glow! 🔥✨\n");
        assert(self.layers@.subrange(0, n as int) =~= self.layers@);
        assert(poem@ =~= poem_of(self.layers@));
        poem
    }
}

/// How a base pattern is repeated into a larger architecture.
#[derive(Clone, Copy, Debug, PartialEq, Eq, Structural)]
pub enum CompositionType {
    /// Copies one after another, reshaped between them.
    Sequential,
    /// Copies side by side, concatenated.
    Parallel,
    /// The base with a skip connection added.
    Residual,
    /// Attention heads, concatenated, then projected.
    Attention,
    /// The base wrapped in recursion markers.
    Recursive,
}

/// `k` copies of `x` separated by `sep`.
pub open spec fn joined_copies(x: Seq<char>, sep: Seq<char>, k: nat) -> Seq<char>
    decreases k,
{
    if k == 0 {
        Seq::empty()
    } else if k == 1 {
        x
    } else {
        joined_copies(x, sep, (k - 1) as nat) + sep + x
    }
}

/// The base wrapped `k` more times as `🌀(...)`.
pub open spec fn wrapped(inner: Seq<char>, k: nat) -> Seq<char>
    decreases k,
{
    if k == 0 {
        inner
    } else {
        "🌀("@ + wrapped(inner, (k - 1) as nat) + ")"@
    }
}

/// The emoji sequence that a composition spells out.
pub open spec fn composed_emojis(base: Seq<char>, comp_type: CompositionType, depth: nat) -> Seq<char> {
    match comp_type {
        CompositionType::Sequential => joined_copies(base, "🔄"@, depth),
        CompositionType::Parallel => joined_copies(base, "🔗"@, depth),
        CompositionType::Residual => base + "➕"@,
        CompositionType::Attention => joined_copies("👁️"@, "🔗"@, depth) + "📏"@,
        CompositionType::Recursive => wrapped("🌀"@ + base, if depth == 0 { 0 } else { (depth - 1) as nat }),
    }
}

fn push_joined(s: &mut String, x: &str, sep: &str, k: usize)
    ensures
        final(s)@ == old(s)@ + joined_copies(x@, sep@, k as nat),
{
    let mut i: usize = 0;
    assert(old(s)@ + joined_copies(x@, sep@, 0) =~= old(s)@);
    while i < k
        invariant
            0 <= i <= k,
            s@ == old(s)@ + joined_copies(x@, sep@, i as nat),
        decreases k - i,
    {
        if i > 0 {
            push_text(s, sep);
        }
        push_text(s, x);
        assert(s@ =~= old(s)@ + joined_copies(x@, sep@, (i + 1) as nat));
        i = i + 1;
    }
}

/// Builds architectures from repeated patterns.
#[derive(Clone, Debug)]
pub struct NeuralComposer {
    pub emoji_map: NeuralEmojiMap,
}

impl NeuralComposer {
    /// A composer over the default operations.
    /// A composer over the operations that compositions spell with.
    pub fn new() -> (r: NeuralComposer)
        ensures
            r.emoji_map.wf(),
            emojis_of(r.emoji_map.operations@) == seq![
                "🔥"@,
                "⚡"@,
                "🌊"@,
                "🌀"@,
                "🎭"@,
                "📏"@,
                "🕸️"@,
                "👁️"@,
                "🚀"@,
                "🔄"@,
                "🔗"@,
                "➕"@,
                "⚖️"@,
            ],
    {
        NeuralComposer { emoji_map: NeuralEmojiMap::with_composition_operations() }
    }

    /// Spells out the composition of `base` and reads it as an
    /// architecture.
    pub fn compose_architecture(&self, base: &str, comp_type: CompositionType, depth: usize) -> (r: Result<
        NeuralArchitecture,
        String,
    >)
        ensures
            r is Ok <==> (forall|i: int|
                0 <= i < composed_emojis(base@, comp_type, depth as nat).len() ==> has_emoji_char(
                    self.emoji_map.operations@,
                    #[trigger] composed_emojis(base@, comp_type, depth as nat)[i],
                )),
            r matches Ok(a) ==> a.layers@.len() == composed_emojis(base@, comp_type, depth as nat).len(),
            r matches Ok(a) ==> forall|i: int|
                0 <= i < a.layers@.len() ==> is_operation_for(
                    self.emoji_map.operations@,
                    (#[trigger] a.layers@[i])@,
                    composed_emojis(base@, comp_type, depth as nat)[i],
                ),
            r matches Err(msg) ==> exists|i: int|
                0 <= i < composed_emojis(base@, comp_type, depth as nat).len() && !has_emoji_char(
                    self.emoji_map.operations@,
                    #[trigger] composed_emojis(base@, comp_type, depth as nat)[i],
                ) && msg@ == "Unknown neural emoji: "@.push(composed_emojis(base@, comp_type, depth as nat)[i]),
    {
        let mut composed = String::new();
        match comp_type {
            CompositionType::Sequential => push_joined(&mut composed, base, "🔄", depth),
            CompositionType::Parallel => push_joined(&mut composed, base, "🔗", depth),
            CompositionType::Residual => {
                push_text(&mut composed, base);
                push_text(&mut composed, "➕");
            },
            CompositionType::Attention => {
                push_joined(&mut composed, "👁️", "🔗", depth);
                push_text(&mut composed, "📏");
            },
            CompositionType::Recursive => {
                push_text(&mut composed, "🌀");
                push_text(&mut composed, base);
                let mut i: usize = 1;
                assert(composed@ =~= wrapped("🌀"@ + base@, 0));
                while i < depth
                    invariant
                        1 <= i,
                        i <= depth || i == 1,
                        composed@ == wrapped("🌀"@ + base@, (i - 1) as nat),
                    decreases depth - i,
                {
                    let mut next = String::from_str("🌀(");
                    push_text(&mut next, composed.as_str());
                    push_text(&mut next, ")");
                    composed = next;
                    i = i + 1;
                }
                assert(depth == 0 || i == depth);
                assert(comp_type == CompositionType::Recursive);
                if depth == 0 {
                    assert(composed@ == wrapped("🌀"@ + base@, 0));
                } else {
                    assert(composed@ == wrapped("🌀"@ + base@, (depth - 1) as nat));
                }
            },
        }
        assert(composed@ =~= composed_emojis(base@, comp_type, depth as nat));
        self.emoji_map.parse_neural_architecture(composed.as_str())
    }
}

} // verus!
