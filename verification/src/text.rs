//! Textual rendering for diagnostics.
//!
//! The format is for human eyes, not a stable interchange format. A DOT
//! rendering of the block graph is supplied for visualization: nodes are
//! blocks, edges are successor relations labeled with the index of the
//! successor-carrying operand.

use vstd::prelude::*;
use crate::fun::{Block, Function, ValueType};
use crate::module::FunctionDefinition;
use crate::op::OpKind;

verus! {

/// A sink for rendered text.
pub trait TextFormatter {
    fn write(&mut self, text: &str);

    fn newline(&mut self);

    fn enter_indent(&mut self, dist: usize);

    fn exit_indent(&mut self, dist: usize);
}

/// A formatter that collects everything into one string, indenting each
/// new line by the current depth.
pub struct BufferTextFormatter {
    pub indent: usize,
    pub buf: String,
}

impl BufferTextFormatter {
    pub fn new() -> (r: BufferTextFormatter)
        ensures
            r.indent == 0,
            r.buf@.len() == 0,
    {
        BufferTextFormatter { indent: 0, buf: String::new() }
    }

    /// Forget everything rendered so far.
    pub fn clear(&mut self)
        ensures
            final(self).indent == 0,
            final(self).buf@.len() == 0,
    {
        self.indent = 0;
        self.buf = String::new();
    }

    /// The rendered text.
    pub fn buffer(&self) -> (r: &String)
        ensures
            r == &self.buf,
    {
        &self.buf
    }
}

impl Default for BufferTextFormatter {
    /// An empty buffer at depth zero.
    fn default() -> (r: BufferTextFormatter)
        ensures
            r.indent == 0,
            r.buf@.len() == 0,
    {
        BufferTextFormatter { indent: 0, buf: String::new() }
    }
}

impl TextFormatter for BufferTextFormatter {
    /// Appends the text; the depth is kept.
    fn write(&mut self, text: &str)
        ensures
            final(self).buf@ == old(self).buf@ + text@,
            final(self).indent == old(self).indent,
    {
        self.buf.append(text);
    }

    /// Appends a line break and one space per indentation level.
    fn newline(&mut self)
        ensures
            final(self).buf@ == old(self).buf@ + "\n"@ + indent_spaces(
                old(self).indent as nat,
            ),
            final(self).indent == old(self).indent,
    {
        self.buf.append("\n");
        let ghost base = self.buf@;
        let mut i: usize = 0;
        while i < self.indent
            invariant
                i <= self.indent,
                self.indent == old(self).indent,
                self.buf@ == base + indent_spaces(i as nat),
            decreases self.indent - i,
        {
            self.buf.append(" ");
            proof {
                reveal_strlit(" ");
                assert(base + indent_spaces((i + 1) as nat) =~= (base + indent_spaces(
                    i as nat,
                )) + " "@);
            }
            i = i + 1;
        }
    }

    /// Deepens the indentation by one level, saturating at the top.
    fn enter_indent(&mut self, _dist: usize)
        ensures
            final(self).buf@ == old(self).buf@,
            final(self).indent == if old(self).indent < usize::MAX {
                old(self).indent + 1
            } else {
                old(self).indent as int
            },
    {
        if self.indent < usize::MAX {
            self.indent = self.indent + 1;
        }
    }

    /// Shallows the indentation by one level, stopping at zero.
    fn exit_indent(&mut self, _dist: usize)
        ensures
            final(self).buf@ == old(self).buf@,
            final(self).indent == if old(self).indent > 0 {
                old(self).indent - 1
            } else {
                0int
            },
    {
        if self.indent > 0 {
            self.indent = self.indent - 1;
        }
    }
}

/// One space per indentation level.
pub open spec fn indent_spaces(n: nat) -> Seq<char>
    decreases n,
{
    if n == 0 {
        Seq::empty()
    } else {
        indent_spaces((n - 1) as nat) + seq![' ']
    }
}

/// The decimal rendering of a number, most significant digit first.
pub open spec fn dec_rep(n: nat) -> Seq<char>
    decreases n,
{
    if n < 10 {
        seq![digit_char(n)]
    } else {
        dec_rep(n / 10) + seq![digit_char(n % 10)]
    }
}

/// The character of one decimal digit.
pub open spec fn digit_char(d: nat) -> char {
    if d == 0 {
        '0'
    } else if d == 1 {
        '1'
    } else if d == 2 {
        '2'
    } else if d == 3 {
        '3'
    } else if d == 4 {
        '4'
    } else if d == 5 {
        '5'
    } else if d == 6 {
        '6'
    } else if d == 7 {
        '7'
    } else if d == 8 {
        '8'
    } else {
        '9'
    }
}

/// Render one digit.
fn digit_str(d: usize) -> (r: &'static str)
    requires
        d < 10,
    ensures
        r@ == seq![digit_char(d as nat)],
{
    let r = if d == 0 {
        "0"
    } else if d == 1 {
        "1"
    } else if d == 2 {
        "2"
    } else if d == 3 {
        "3"
    } else if d == 4 {
        "4"
    } else if d == 5 {
        "5"
    } else if d == 6 {
        "6"
    } else if d == 7 {
        "7"
    } else if d == 8 {
        "8"
    } else {
        "9"
    };
    proof {
        reveal_strlit("0");
        reveal_strlit("1");
        reveal_strlit("2");
        reveal_strlit("3");
        reveal_strlit("4");
        reveal_strlit("5");
        reveal_strlit("6");
        reveal_strlit("7");
        reveal_strlit("8");
        reveal_strlit("9");
        assert(r@ =~= seq![digit_char(d as nat)]);
    }
    r
}

/// Render a number in decimal.
#[verifier::loop_isolation(false)]
pub fn usize_to_string(n: usize) -> (r: String)
    ensures
        r@ == dec_rep(n as nat),
    decreases n,
{
    if n < 10 {
        let mut s = String::new();
        s.append(digit_str(n));
        proof {
            assert(s@ =~= dec_rep(n as nat));
        }
        s
    } else {
        let mut s = usize_to_string(n / 10);
        s.append(digit_str(n % 10));
        proof {
            assert(s@ =~= dec_rep(n as nat));
        }
        s
    }
}

/// The needle occurs somewhere in the haystack.
pub open spec fn contains_seq(hay: Seq<char>, needle: Seq<char>) -> bool {
    exists|k: int|
        0 <= k && k + needle.len() <= hay.len() && #[trigger] hay.subrange(k, k + needle.len())
            == needle
}

/// Containment survives extension on the right.
proof fn lemma_contains_extend(hay: Seq<char>, longer: Seq<char>, needle: Seq<char>)
    requires
        contains_seq(hay, needle),
        hay.len() <= longer.len(),
        longer.subrange(0, hay.len() as int) == hay,
    ensures
        contains_seq(longer, needle),
{
    let k = choose|k: int|
        0 <= k && k + needle.len() <= hay.len() && #[trigger] hay.subrange(k, k + needle.len())
            == needle;
    assert(longer.subrange(k, k + needle.len()) =~= hay.subrange(k, k + needle.len()));
}

/// A suffix's containment carries to the whole.
proof fn lemma_contains_suffix(head: Seq<char>, tail: Seq<char>, needle: Seq<char>)
    requires
        contains_seq(tail, needle),
    ensures
        contains_seq(head + tail, needle),
{
    let k = choose|k: int|
        0 <= k && k + needle.len() <= tail.len() && #[trigger] tail.subrange(k, k + needle.len())
            == needle;
    assert((head + tail).subrange(head.len() + k, head.len() + k + needle.len()) =~= tail.subrange(
        k,
        k + needle.len(),
    ));
}

/// The node marker the DOT rendering opens a block's line with.
pub open spec fn dot_node_marker(b: int) -> Seq<char> {
    "blk_"@ + dec_rep(b as nat) + " [ label=<"@
}

/// One DOT edge line: the source, the successor, and the label carrying
/// the index of the successor-carrying operand position.
pub open spec fn dot_edge_line(b: int, s: int, k: int) -> Seq<char> {
    "blk_"@ + dec_rep(b as nat) + " -> blk_"@ + dec_rep(s as nat) + " [ label="@ + dec_rep(
        k as nat,
    ) + " ];\n"@
}

/// Render a node marker.
fn dot_node_marker_string(b: usize) -> (r: String)
    ensures
        r@ == dot_node_marker(b as int),
{
    let mut out = String::new();
    out.append("blk_");
    out.append(usize_to_string(b).as_str());
    out.append(" [ label=<");
    proof {
        assert(out@ =~= dot_node_marker(b as int));
    }
    out
}

/// Render one edge line.
fn dot_edge_string(b: usize, s: usize, k: usize) -> (r: String)
    ensures
        r@ == dot_edge_line(b as int, s as int, k as int),
{
    let mut out = String::new();
    out.append("blk_");
    out.append(usize_to_string(b).as_str());
    out.append(" -> blk_");
    out.append(usize_to_string(s).as_str());
    out.append(" [ label=");
    out.append(usize_to_string(k).as_str());
    out.append(" ];\n");
    proof {
        assert(out@ =~= dot_edge_line(b as int, s as int, k as int));
    }
    out
}

/// The label escaping of the DOT rendering: braces are escaped and line
/// breaks become DOT line-break elements.
pub open spec fn label_escaped(s: Seq<char>) -> Seq<char>
    decreases s.len(),
{
    if s.len() == 0 {
        Seq::empty()
    } else {
        let head: Seq<char> = if s[0] == '{' {
            seq!['\\', '{']
        } else if s[0] == '}' {
            seq!['\\', '}']
        } else if s[0] == '\n' {
            "<br align=\"left\" />"@
        } else {
            seq![s[0]]
        };
        head + label_escaped(s.drop_first())
    }
}

/// Escape one label for the DOT rendering.
#[verifier::loop_isolation(false)]
pub fn format_label(label: &str) -> (r: String)
    ensures
        r@ == label_escaped(label@),
{
    let n = label.unicode_len();
    let mut out = String::new();
    let mut i: usize = 0;
    proof {
        assert(label@.skip(0) =~= label@);
        assert(out@ + label_escaped(label@.skip(0)) =~= label_escaped(label@));
    }
    while i < n
        invariant
            i <= n,
            n == label@.len(),
            out@ + label_escaped(label@.skip(i as int)) == label_escaped(label@),
        decreases n - i,
    {
        let c = label.get_char(i);
        proof {
            assert(label@.skip(i as int)[0] == label@[i as int]);
            assert(label@.skip(i as int).drop_first() =~= label@.skip(i + 1));
            reveal_strlit("\\{");
            reveal_strlit("\\}");
            reveal_strlit("<br align=\"left\" />");
        }
        if c == '{' {
            out.append("\\{");
            proof {
                assert(out@ + label_escaped(label@.skip(i + 1)) =~= label_escaped(label@));
            }
        } else if c == '}' {
            out.append("\\}");
            proof {
                assert(out@ + label_escaped(label@.skip(i + 1)) =~= label_escaped(label@));
            }
        } else if c == '\n' {
            out.append("<br align=\"left\" />");
            proof {
                assert(out@ + label_escaped(label@.skip(i + 1)) =~= label_escaped(label@));
            }
        } else {
            let piece = label.substring_char(i, i + 1);
            proof {
                assert(piece@ =~= seq![label@[i as int]]);
            }
            out.append(piece);
            proof {
                assert(out@ + label_escaped(label@.skip(i + 1)) =~= label_escaped(label@));
            }
        }
        i = i + 1;
    }
    proof {
        assert(label@.skip(n as int) =~= Seq::<char>::empty());
        assert(out@ =~= label_escaped(label@));
    }
    out
}

/// The display name of an op kind.
fn op_name(op: &OpKind) -> (r: &'static str)
{
    match op {
        OpKind::CallFlow => "call_flow",
        OpKind::Call => "call",
        OpKind::IfBool => "if_bool",
        OpKind::Case { .. } => "case",
        OpKind::CaptureFunction(_) => "capture_function",
        OpKind::BindClosure { .. } => "bind_closure",
        OpKind::MakeTuple => "make_tuple",
        OpKind::MakeCons => "make_cons",
        OpKind::Unreachable => "unreachable",
    }
}

/// Render one block's label and operands after its node marker,
/// appending to the output.
fn render_block(f: &Function, b: Block, out: &mut String)
    requires
        f.wf(),
        f.valid_block(b),
    ensures
        final(out)@.len() >= old(out)@.len(),
        final(out)@.subrange(0, old(out)@.len() as int) == old(out)@,
{
    let mut line = String::new();
    line.append(usize_to_string(b.0).as_str());
    line.append("|");
    match f.block_kind(b) {
        Some(op) => {
            line.append(op_name(&op));
            line.append(" read[");
            let reads = f.block_reads(b);
            let n = reads.len();
            let mut i: usize = 0;
            while i < n
                invariant
                    i <= n,
                    n == reads@.len(),
                    f.wf(),
                    f.valid_block(b),
                    reads@ == f.reads_seq(b),
                decreases n - i,
            {
                proof {
                    assert(f.block_wf(b));
                    assert(f.valid_value(f.reads_seq(b)[i as int]));
                }
                match f.value_kind(reads[i]) {
                    ValueType::Block(s) => {
                        line.append("blk_");
                        line.append(usize_to_string(s.0).as_str());
                    },
                    _ => {
                        line.append("v");
                        line.append(usize_to_string(reads[i].0).as_str());
                    },
                }
                line.append(", ");
                i = i + 1;
            }
            line.append("]");
        },
        None => {
            line.append("no op");
        },
    }
    line.append("> ];\n");
    out.append(line.as_str());
    proof {
        assert(out@.subrange(0, old(out)@.len() as int) =~= old(out)@);
    }
}

/// Render a function's block graph in DOT form: one node per block,
/// opened by its node marker, and one edge line per successor, labeled
/// with the index of the successor-carrying operand position.
#[verifier::loop_isolation(false)]
pub fn function_to_dot(function: &FunctionDefinition) -> (r: String)
    requires
        function.lir_function is Some,
        function.lir_function.unwrap().wf(),
    ensures
        r@.len() >= 14,
        r@.subrange(0, 12) == "digraph g {\n"@,
        r@.subrange(r@.len() - 2, r@.len() as int) == "}\n"@,
        forall|b: int|
            0 <= b < function.lir_function.unwrap().blocks@.len() ==> contains_seq(
                r@,
                #[trigger] dot_node_marker(b),
            ),
        forall|b: int, k: int|
            0 <= b < function.lir_function.unwrap().blocks@.len() && 0 <= k
                < function.lir_function.unwrap().succs_seq(Block(b as usize)).len()
                ==> contains_seq(
                r@,
                #[trigger] dot_edge_line(
                    b,
                    function.lir_function.unwrap().succs_seq(Block(b as usize))[k].0 as int,
                    k,
                ),
            ),
{
    let lir = match &function.lir_function {
        Some(l) => l,
        None => {
            proof {
                assert(false);
            }
            unreached()
        },
    };
    let mut mid = String::new();
    mid.append("node [labeljust=\"l\", shape=record]\n");
    match lir.entry_block {
        Some(e) => {
            mid.append("entry -> blk_");
            mid.append(usize_to_string(e.0).as_str());
            mid.append(";\n");
        },
        None => {},
    }
    let n = lir.blocks.len();
    let mut i: usize = 0;
    while i < n
        invariant
            i <= n,
            n == lir.blocks@.len(),
            lir.wf(),
            forall|b2: int| 0 <= b2 < i ==> contains_seq(mid@, #[trigger] dot_node_marker(b2)),
            forall|b2: int, k2: int|
                0 <= b2 < i && 0 <= k2 < lir.succs_seq(Block(b2 as usize)).len() ==> contains_seq(
                    mid@,
                    #[trigger] dot_edge_line(
                        b2,
                        lir.succs_seq(Block(b2 as usize))[k2].0 as int,
                        k2,
                    ),
                ),
        decreases n - i,
    {
        let b = Block(i);
        let ghost mid_iter = mid@;
        let marker = dot_node_marker_string(i);
        mid.append(marker.as_str());
        proof {
            assert(contains_seq(mid@, dot_node_marker(i as int))) by {
                assert(mid@.subrange(
                    mid_iter.len() as int,
                    mid_iter.len() as int + dot_node_marker(i as int).len() as int,
                ) =~= dot_node_marker(i as int));
            }
        }
        let ghost mid_marked = mid@;
        render_block(lir, b, &mut mid);
        proof {
            assert(mid@.subrange(0, mid_iter.len() as int) =~= mid_iter);
            lemma_contains_extend(mid_marked, mid@, dot_node_marker(i as int));
        }
        let ghost mid_noded = mid@;
        let succs = lir.block_successors(b);
        let m = succs.len();
        let mut k: usize = 0;
        while k < m
            invariant
                k <= m,
                m == lir.succs_seq(b).len(),
                succs@ == lir.succs_seq(b),
                lir.wf(),
                b.0 == i,
                i < n,
                n == lir.blocks@.len(),
                mid@.len() >= mid_noded.len(),
                mid@.subrange(0, mid_noded.len() as int) == mid_noded,
                contains_seq(mid@, dot_node_marker(i as int)),
                forall|k2: int|
                    0 <= k2 < k ==> contains_seq(
                        mid@,
                        #[trigger] dot_edge_line(
                            i as int,
                            lir.succs_seq(b)[k2].0 as int,
                            k2,
                        ),
                    ),
            decreases m - k,
        {
            let ghost mid_k = mid@;
            let line = dot_edge_string(i, succs[k].0, k);
            mid.append(line.as_str());
            proof {
                assert(mid@.subrange(0, mid_noded.len() as int) =~= mid_noded);
                assert(mid@.subrange(0, mid_k.len() as int) =~= mid_k);
                assert(contains_seq(
                    mid@,
                    dot_edge_line(i as int, lir.succs_seq(b)[k as int].0 as int, k as int),
                )) by {
                    assert(mid@.subrange(
                        mid_k.len() as int,
                        mid_k.len() as int + dot_edge_line(
                            i as int,
                            lir.succs_seq(b)[k as int].0 as int,
                            k as int,
                        ).len() as int,
                    ) =~= dot_edge_line(
                        i as int,
                        lir.succs_seq(b)[k as int].0 as int,
                        k as int,
                    ));
                }
                assert forall|k2: int|
                    0 <= k2 < k + 1 implies contains_seq(
                    mid@,
                    #[trigger] dot_edge_line(i as int, lir.succs_seq(b)[k2].0 as int, k2),
                ) by {
                    if k2 < k {
                        lemma_contains_extend(
                            mid_k,
                            mid@,
                            dot_edge_line(i as int, lir.succs_seq(b)[k2].0 as int, k2),
                        );
                    }
                }
                lemma_contains_extend(mid_k, mid@, dot_node_marker(i as int));
            }
            k = k + 1;
        }
        proof {
            assert(mid@.subrange(0, mid_iter.len() as int) =~= mid_iter);
            assert forall|b2: int| 0 <= b2 < i + 1 implies contains_seq(
                mid@,
                #[trigger] dot_node_marker(b2),
            ) by {
                if b2 < i {
                    lemma_contains_extend(mid_iter, mid@, dot_node_marker(b2));
                }
            }
            assert forall|b2: int, k2: int|
                0 <= b2 < i + 1 && 0 <= k2 < lir.succs_seq(Block(b2 as usize)).len() implies
                contains_seq(
                mid@,
                #[trigger] dot_edge_line(b2, lir.succs_seq(Block(b2 as usize))[k2].0 as int, k2),
            ) by {
                if b2 < i {
                    lemma_contains_extend(
                        mid_iter,
                        mid@,
                        dot_edge_line(b2, lir.succs_seq(Block(b2 as usize))[k2].0 as int, k2),
                    );
                } else {
                    assert(Block(b2 as usize) == b);
                }
            }
        }
        i = i + 1;
    }
    let mut out = String::new();
    out.append("digraph g {\n");
    let ghost out_head = out@;
    out.append(mid.as_str());
    proof {
        assert forall|b2: int| 0 <= b2 < n implies contains_seq(
            out@,
            #[trigger] dot_node_marker(b2),
        ) by {
            assert(out@ == out_head + mid@);
            lemma_contains_suffix(out_head, mid@, dot_node_marker(b2));
        }
        assert forall|b2: int, k2: int|
            0 <= b2 < n && 0 <= k2 < lir.succs_seq(Block(b2 as usize)).len() implies contains_seq(
            out@,
            #[trigger] dot_edge_line(b2, lir.succs_seq(Block(b2 as usize))[k2].0 as int, k2),
        ) by {
            assert(out@ == out_head + mid@);
            lemma_contains_suffix(
                out_head,
                mid@,
                dot_edge_line(b2, lir.succs_seq(Block(b2 as usize))[k2].0 as int, k2),
            );
        }
    }
    let ghost out_mid = out@;
    out.append("}\n");
    proof {
        reveal_strlit("digraph g {\n");
        reveal_strlit("}\n");
        assert(out@.subrange(0, 12) =~= "digraph g {\n"@);
        assert(out@.subrange(out@.len() - 2, out@.len() as int) =~= "}\n"@);
        assert(out@.subrange(0, out_mid.len() as int) =~= out_mid);
        assert forall|b2: int| 0 <= b2 < n implies contains_seq(
            out@,
            #[trigger] dot_node_marker(b2),
        ) by {
            lemma_contains_extend(out_mid, out@, dot_node_marker(b2));
        }
        assert forall|b2: int, k2: int|
            0 <= b2 < n && 0 <= k2 < lir.succs_seq(Block(b2 as usize)).len() implies contains_seq(
            out@,
            #[trigger] dot_edge_line(b2, lir.succs_seq(Block(b2 as usize))[k2].0 as int, k2),
        ) by {
            lemma_contains_extend(
                out_mid,
                out@,
                dot_edge_line(b2, lir.succs_seq(Block(b2 as usize))[k2].0 as int, k2),
            );
        }
    }
    out
}

impl Function {
    /// Render the function for human eyes. The format is for diagnostics
    /// only, not a stable interchange format.
    #[verifier::loop_isolation(false)]
    pub fn to_text(&self) -> (r: String)
        requires
            self.wf(),
        ensures
            r@.len() >= 9,
            r@.subrange(0, 9) == "function "@,
    {
        let mut out = String::new();
        out.append("function ");
        proof {
            reveal_strlit("function ");
            assert(out@ =~= "function "@);
            assert(out@.subrange(0, 9) =~= "function "@);
        }
        out.append(self.ident.name.as_str());
        out.append("/");
        out.append(usize_to_string(self.ident.arity).as_str());
        out.append(" {\n");
        proof {
            assert(out@.subrange(0, 9) =~= "function "@);
        }
        let n = self.blocks.len();
        let mut i: usize = 0;
        while i < n
            invariant
                i <= n,
                n == self.blocks@.len(),
                self.wf(),
                out@.len() >= 9,
                out@.subrange(0, 9) == "function "@,
            decreases n - i,
        {
            let ghost before = out@;
            out.append(dot_node_marker_string(i).as_str());
            render_block(self, Block(i), &mut out);
            proof {
                assert(out@.subrange(0, 9) =~= before.subrange(0, 9));
            }
            i = i + 1;
        }
        out.append("}\n");
        proof {
            reveal_strlit("function ");
            assert(out@.subrange(0, 9) =~= "function "@);
        }
        out
    }
}

} // verus!
