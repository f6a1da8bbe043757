//! Decision logic of the process supervisor's two relays: which operator
//! lines are forwarded to the child and how, how child output lines are
//! tagged before they are shown to the operator, and the rule that a
//! failed write stops all further forwarding.

use vstd::prelude::*;
use vstd::string::StringExecFns;

verus! {

/// An operator line is forwarded to the child exactly when it is non-empty
/// and does not begin with the comment marker `#`.
pub open spec fn spec_should_forward(line: Seq<char>) -> bool {
    line.len() > 0 && line[0] != '#'
}

/// Decides whether an operator input line is forwarded to the child.
pub fn should_forward(line: &str) -> (b: bool)
    ensures
        b == spec_should_forward(line@),
{
    let n = line.unicode_len();
    if n == 0 {
        false
    } else {
        line.get_char(0) != '#'
    }
}

/// What the input relay writes to the child for one forwarded line.
pub open spec fn spec_forwarded(line: Seq<char>) -> Seq<char> {
    line + seq!['\n']
}

/// The text written to the child for one operator line: the line followed
/// by a newline when it is forwarded, nothing when it is suppressed.
pub fn forward_line(line: &str) -> (r: Option<String>)
    ensures
        match r {
            Some(out) => spec_should_forward(line@) && out@ == spec_forwarded(line@),
            None => !spec_should_forward(line@),
        },
{
    if should_forward(line) {
        let mut s = line.to_owned();
        s.append("\n");
        proof {
            reveal_strlit("\n");
            assert(("\n")@ =~= seq!['\n']);
        }
        Some(s)
    } else {
        None
    }
}

/// What the input relay forwards for a whole sequence of operator lines:
/// the forwarded lines, in operator order, each with its newline; empty
/// and comment lines leave no trace.
pub open spec fn spec_relay_input(lines: Seq<Seq<char>>) -> Seq<Seq<char>>
    decreases lines.len(),
{
    if lines.len() == 0 {
        Seq::empty()
    } else {
        let rest = spec_relay_input(lines.drop_first());
        if spec_should_forward(lines[0]) {
            seq![spec_forwarded(lines[0])] + rest
        } else {
            rest
        }
    }
}

proof fn lemma_relay_input_app(a: Seq<Seq<char>>, b: Seq<Seq<char>>)
    ensures
        spec_relay_input(a + b) == spec_relay_input(a) + spec_relay_input(b),
    decreases a.len(),
{
    if a.len() == 0 {
        assert(a + b =~= b);
        assert(spec_relay_input(a) =~= Seq::<Seq<char>>::empty());
        assert(spec_relay_input(a) + spec_relay_input(b) =~= spec_relay_input(b));
    } else {
        assert((a + b)[0] == a[0]);
        assert((a + b).drop_first() =~= a.drop_first() + b);
        lemma_relay_input_app(a.drop_first(), b);
        if spec_should_forward(a[0]) {
            assert(seq![spec_forwarded(a[0])] + (spec_relay_input(a.drop_first())
                + spec_relay_input(b)) =~= (seq![spec_forwarded(a[0])] + spec_relay_input(
                a.drop_first(),
            )) + spec_relay_input(b));
        }
        assert((a + b).len() != 0);
    }
}

proof fn lemma_relay_input_one(l: Seq<char>)
    ensures
        spec_should_forward(l) ==> spec_relay_input(seq![l]) == seq![spec_forwarded(l)],
        !spec_should_forward(l) ==> spec_relay_input(seq![l]) == Seq::<Seq<char>>::empty(),
{
    assert(seq![l].drop_first().len() == 0);
    assert(spec_relay_input(seq![l].drop_first()) == Seq::<Seq<char>>::empty());
    if spec_should_forward(l) {
        assert(seq![spec_forwarded(l)] + Seq::<Seq<char>>::empty() =~= seq![spec_forwarded(l)]);
    }
}

/// Runs the whole input relay over a sequence of operator lines, returning
/// exactly what reaches the child, in order.
pub fn relay_input(lines: &Vec<String>) -> (out: Vec<String>)
    ensures
        out.deep_view() == spec_relay_input(lines.deep_view()),
{
    let ghost dv = lines.deep_view();
    let n = lines.len();
    let mut out: Vec<String> = Vec::new();
    let mut i: usize = 0;
    proof {
        assert(dv.take(0).len() == 0);
        assert(spec_relay_input(dv.take(0)) == Seq::<Seq<char>>::empty());
        assert(out.deep_view() =~= spec_relay_input(dv.take(0)));
    }
    while i < n
        invariant
            n == lines@.len(),
            dv == lines.deep_view(),
            i <= n,
            out.deep_view() == spec_relay_input(dv.take(i as int)),
        decreases n - i,
    {
        let ghost prev = out.deep_view();
        proof {
            assert(dv.take(i as int + 1) =~= dv.take(i as int) + seq![dv[i as int]]);
            lemma_relay_input_app(dv.take(i as int), seq![dv[i as int]]);
            lemma_relay_input_one(dv[i as int]);
            assert(dv[i as int] == lines@[i as int]@);
        }
        match forward_line(lines[i].as_str()) {
            Some(s) => {
                out.push(s);
                proof {
                    assert(out.deep_view() =~= prev + seq![spec_forwarded(dv[i as int])]);
                    assert(prev + seq![spec_forwarded(dv[i as int])] =~= spec_relay_input(
                        dv.take(i as int + 1),
                    ));
                }
            },
            None => {
                proof {
                    assert(prev + Seq::<Seq<char>>::empty() =~= prev);
                }
            },
        }
        i += 1;
    }
    proof {
        assert(dv.take(n as int) =~= dv);
    }
    out
}

/// The marker put before each child output line shown to the operator.
pub open spec fn out_marker() -> Seq<char> {
    "|MINECRAFT| "@
}

/// Tags one child output line with the source marker.
pub fn tag_output_line(line: &str) -> (r: String)
    ensures
        r@ == out_marker() + line@,
{
    let mut s = String::new();
    s.append("|MINECRAFT| ");
    s.append(line);
    proof {
        assert(s@ =~= out_marker() + line@);
    }
    s
}

/// Runs the whole output relay over the lines a child emitted: every line
/// is shown, tagged, in the order the child wrote them.
pub fn relay_output(lines: &Vec<String>) -> (out: Vec<String>)
    ensures
        out@.len() == lines@.len(),
        forall|i: int| 0 <= i < lines@.len() ==> out@[i]@ == out_marker() + lines@[i]@,
{
    let n = lines.len();
    let mut out: Vec<String> = Vec::new();
    let mut i: usize = 0;
    while i < n
        invariant
            n == lines@.len(),
            i <= n,
            out@.len() == i,
            forall|k: int| 0 <= k < i ==> out@[k]@ == out_marker() + lines@[k]@,
        decreases n - i,
    {
        let t = tag_output_line(lines[i].as_str());
        out.push(t);
        i += 1;
    }
    out
}

/// The input relay's session state: once a write to the child has failed,
/// no further operator lines are forwarded; the child keeps running.
pub struct InputRelay {
    pub stopped: bool,
}

impl InputRelay {
    /// A relay that has not seen a write failure yet.
    pub fn new() -> (r: InputRelay)
        ensures
            !r.stopped,
    {
        InputRelay { stopped: false }
    }

    /// What to hand the child for one operator line in the current state:
    /// nothing once stopped, else the forwarded form of the line.
    pub fn step(&self, line: &str) -> (r: Option<String>)
        ensures
            match r {
                Some(out) => !self.stopped && spec_should_forward(line@) && out@ == spec_forwarded(
                    line@,
                ),
                None => self.stopped || !spec_should_forward(line@),
            },
    {
        if self.stopped {
            None
        } else {
            forward_line(line)
        }
    }

    /// Records whether the write of a forwarded line reached the child;
    /// after a failure the relay stays stopped for good.
    pub fn note_write(&mut self, ok: bool)
        ensures
            final(self).stopped == (old(self).stopped || !ok),
    {
        if !ok {
            self.stopped = true;
        }
    }
}

} // verus!
