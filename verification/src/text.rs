//! Plain text for values, facts and derivations.

use vstd::prelude::*;
use crate::fact::{Fact, FactView, Value, ValueView};
use crate::tree::{ChildrenView, Tree, TreeView};
use crate::views::views;

verus! {

/// The character of a decimal digit.
pub open spec fn digit(d: nat) -> char {
    if d == 0 {
        '0'
    } else if d == 1 {
        '1'
    } else if d == 2 {
        '2'
    } else if d == 3 {
        '3'
    } else if d == 4 {
        '4'
    } else if d == 5 {
        '5'
    } else if d == 6 {
        '6'
    } else if d == 7 {
        '7'
    } else if d == 8 {
        '8'
    } else {
        '9'
    }
}

/// The decimal digits of `n`, most significant first, without leading zeros.
pub open spec fn digits(n: nat) -> Seq<char>
    decreases n,
{
    if n < 10 {
        seq![digit(n)]
    } else {
        digits(n / 10).push(digit(n % 10))
    }
}

/// The decimal numeral of `i`, with a minus sign if it is negative.
pub open spec fn decimal(i: int) -> Seq<char> {
    if i < 0 {
        seq!['-'] + digits((-i) as nat)
    } else {
        digits(i as nat)
    }
}

/// `amount` pairs of dashes.
pub open spec fn dashes(amount: nat) -> Seq<char> {
    Seq::new(2 * amount, |i: int| '-')
}

/// The first `n` of `args`, each as `name=value`, separated by a comma and a space.
pub open spec fn args_text(args: Seq<(Seq<char>, ValueView)>, n: nat) -> Seq<char>
    decreases n,
{
    if n == 0 || n > args.len() {
        Seq::empty()
    } else if n == 1 {
        args[0].0 + "="@ + args[0].1.text()
    } else {
        args_text(args, (n - 1) as nat) + ", "@ + args[n - 1].0 + "="@ + args[n - 1].1.text()
    }
}

impl ValueView {
    /// A value as text: `true` or `false`, a decimal numeral, or a string between double quotes.
    pub open spec fn text(self) -> Seq<char> {
        match self {
            ValueView::Bool(b) => if b {
                "true"@
            } else {
                "false"@
            },
            ValueView::Int(i) => decimal(i),
            ValueView::Str(s) => "\""@ + s + "\""@,
        }
    }
}

impl FactView {
    /// A fact as text: its name, then its arguments between round brackets.
    pub open spec fn text(self) -> Seq<char> {
        self.name + "("@ + args_text(self.args, self.args.len()) + ")"@
    }
}

impl TreeView {
    /// A derivation as text, one line for each node. A line starts with `depth` pairs of
    /// dashes, a space and `prefix`; the antecedents of a step follow it one level deeper,
    /// each with its tag between angle brackets as its prefix.
    pub open spec fn text(self, depth: nat, prefix: Seq<char>) -> Seq<char>
        decreases self, 0nat,
    {
        match self {
            TreeView::Axiom(fact) => dashes(depth) + " "@ + prefix + fact.text() + " [&axiom]"@,
            TreeView::Goal(name) => dashes(depth) + " "@ + prefix + "*** "@ + name,
            TreeView::Step { label, antecedents, consequent, .. } => dashes(depth) + " "@ + prefix
                + consequent.text() + " ["@ + label + "]"@ + Self::text_below(
                antecedents,
                antecedents.len(),
                depth + 1,
            ),
        }
    }

    /// The lines of the first `n` of `children` at `depth`, each after a line break.
    pub open spec fn text_below(children: ChildrenView, n: nat, depth: nat) -> Seq<char>
        decreases children, n,
    {
        if n == 0 || n > children.len() {
            Seq::empty()
        } else {
            Self::text_below(children, (n - 1) as nat, depth) + "\n"@ + children[n - 1].1.text(
                depth,
                "<"@ + children[n - 1].0 + ">: "@,
            )
        }
    }
}

/// The numeral of one decimal digit.
fn digit_str(d: u64) -> (res: &'static str)
    requires
        d < 10,
    ensures
        res@ == seq![digit(d as nat)],
{
    proof {
        reveal_strlit("0");
        reveal_strlit("1");
        reveal_strlit("2");
        reveal_strlit("3");
        reveal_strlit("4");
        reveal_strlit("5");
        reveal_strlit("6");
        reveal_strlit("7");
        reveal_strlit("8");
        reveal_strlit("9");
    }
    let res = if d == 0 {
        "0"
    } else if d == 1 {
        "1"
    } else if d == 2 {
        "2"
    } else if d == 3 {
        "3"
    } else if d == 4 {
        "4"
    } else if d == 5 {
        "5"
    } else if d == 6 {
        "6"
    } else if d == 7 {
        "7"
    } else if d == 8 {
        "8"
    } else {
        "9"
    };
    assert(res@ =~= seq![digit(d as nat)]);
    res
}

/// Appends the decimal digits of `n` to `out`.
fn append_digits(out: &mut String, n: u64)
    ensures
        final(out)@ == old(out)@ + digits(n as nat),
    decreases n,
{
    if n >= 10 {
        append_digits(out, n / 10);
    }
    out.append(digit_str(n % 10));
    assert(out@ =~= old(out)@ + digits(n as nat));
}

/// The decimal numeral of `i`.
pub fn decimal_text(i: i64) -> (res: String)
    ensures
        res@ == decimal(i as int),
{
    let mut res = String::new();
    if i < 0 {
        proof {
            reveal_strlit("-");
        }
        res.append("-");
        let magnitude: u64 = if i == i64::MIN {
            9223372036854775808u64
        } else {
            (-i) as u64
        };
        append_digits(&mut res, magnitude);
        assert(res@ =~= decimal(i as int));
    } else {
        append_digits(&mut res, i as u64);
        assert(res@ =~= decimal(i as int));
    }
    res
}

impl Value {
    /// This value as text.
    pub fn to_text(&self) -> (res: String)
        ensures
            res@ == self@.text(),
    {
        match self {
            Value::Bool(b) => if *b {
                String::from_str("true")
            } else {
                String::from_str("false")
            },
            Value::Int(i) => decimal_text(*i),
            Value::Str(s) => {
                let mut res = String::from_str("\"");
                res.append(s.as_str());
                res.append("\"");
                res
            },
        }
    }
}

impl Fact {
    /// This fact as text.
    pub fn to_text(&self) -> (res: String)
        ensures
            res@ == self@.text(),
    {
        let mut res = self.name.clone();
        res.append("(");
        let ghost head = res@;
        let ghost args = views(self.args@);
        let mut i: usize = 0;
        assert(res@ =~= head + args_text(args, 0));
        while i < self.args.len()
            invariant
                i <= self.args.len(),
                args == views(self.args@),
                res@ == head + args_text(args, i as nat),
            decreases self.args.len() - i,
        {
            let ghost before = args_text(args, i as nat);
            if i > 0 {
                res.append(", ");
            }
            res.append(self.args[i].0.as_str());
            res.append("=");
            let value = self.args[i].1.to_text();
            res.append(value.as_str());
            i += 1;
            assert(res@ =~= head + args_text(args, i as nat));
        }
        res.append(")");
        res
    }
}

impl Tree {
    /// `amount` pairs of dashes.
    pub fn make_dashes(amount: usize) -> (res: String)
        ensures
            res@ == dashes(amount as nat),
    {
        proof {
            reveal_strlit("--");
        }
        let mut res = String::new();
        let mut i: usize = 0;
        assert(res@ =~= dashes(0));
        while i < amount
            invariant
                i <= amount,
                "--"@ == seq!['-', '-'],
                res@ == dashes(i as nat),
            decreases amount - i,
        {
            res.append("--");
            i += 1;
            assert(res@ =~= dashes(i as nat));
        }
        res
    }

    /// The lines of this derivation, the first of them indented by `indent`.
    #[verifier::loop_isolation(false)]
    fn text_at(&self, indent: &String, prefix: &String, Ghost(depth): Ghost<nat>) -> (res: String)
        requires
            indent@ == dashes(depth),
        ensures
            res@ == self@.text(depth, prefix@),
        decreases self,
    {
        let mut res = indent.clone();
        res.append(" ");
        res.append(prefix.as_str());
        match self {
            Tree::Axiom(fact) => {
                let fact_text = fact.to_text();
                res.append(fact_text.as_str());
                res.append(" [&axiom]");
            },
            Tree::Goal(name) => {
                res.append("*** ");
                res.append(name.as_str());
            },
            Tree::Step { label, antecedents, consequent, .. } => {
                let fact_text = consequent.to_text();
                res.append(fact_text.as_str());
                res.append(" [");
                res.append(label.as_str());
                res.append("]");
                let mut deeper = indent.clone();
                deeper.append("--");
                proof {
                    reveal_strlit("--");
                    self.lemma_step_view();
                    assert(deeper@ =~= dashes(depth + 1));
                }
                let ghost head = res@;
                let ghost children = views(antecedents@);
                let mut i: usize = 0;
                assert(res@ =~= head + TreeView::text_below(children, 0, depth + 1));
                while i < antecedents.len()
                    invariant
                        i <= antecedents.len(),
                        res@ == head + TreeView::text_below(children, i as nat, depth + 1),
                    decreases antecedents.len() - i,
                {
                    let mut tag = String::from_str("<");
                    tag.append(antecedents[i].0.as_str());
                    tag.append(">: ");
                    let below = antecedents[i].1.text_at(&deeper, &tag, Ghost(depth + 1));
                    res.append("\n");
                    res.append(below.as_str());
                    i += 1;
                    assert(res@ =~= head + TreeView::text_below(children, i as nat, depth + 1));
                }
            },
        }
        res
    }

    /// This derivation as text, one line for each node, the root at depth one.
    pub fn to_text(&self) -> (res: String)
        ensures
            res@ == self@.text(1, Seq::empty()),
    {
        let indent = Tree::make_dashes(1);
        let prefix = String::new();
        self.text_at(&indent, &prefix, Ghost(1))
    }
}

} // verus!
