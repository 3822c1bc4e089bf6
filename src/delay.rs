use vstd::prelude::*;
use crate::node::Node;

verus! {

/// A step that waits: first `seconds` whole seconds, then `milliseconds`
/// milliseconds.
pub struct Delay {
    pub name: String,
    pub seconds: u64,
    pub milliseconds: u64,
}

/// Why a template node does not make a delay step.
#[derive(PartialEq, Eq, Structural, Clone, Copy, Debug)]
pub enum DelayError {
    /// The step has no `name` string.
    MissingName,
    /// `delay.seconds` is present and not a non-negative integer.
    InvalidSeconds,
    /// `delay.milliseconds` is present and not a non-negative integer.
    InvalidMilliseconds,
}

/// One suspension of a delay step.
#[derive(PartialEq, Eq, Structural, Clone, Copy, Debug)]
pub enum Pause {
    Seconds(u64),
    Millis(u64),
}

/// The line a delay step reports: its name and its seconds.
pub struct Report {
    pub name: String,
    pub seconds: u64,
}

/// The count that a `seconds` or `milliseconds` node gives: zero where it
/// is absent or null, its value where it is a non-negative integer, and
/// nothing for any other node.
pub open spec fn count_of(n: Option<Node>) -> Option<u64> {
    match n {
        None => Some(0u64),
        Some(Node::Null) => Some(0u64),
        Some(Node::Integer(i)) => if i >= 0 {
            Some(i as u64)
        } else {
            None
        },
        _ => None,
    }
}

/// The node under `delay.<key>` of a template.
pub open spec fn delay_field(item: Node, key: Seq<char>) -> Option<Node> {
    match item.spec_get("delay"@) {
        Some(d) => d.spec_get(key),
        None => None,
    }
}

/// The suspensions, in order, for the given seconds and milliseconds.
pub open spec fn pause_plan(seconds: u64, milliseconds: u64) -> Seq<Pause> {
    (if seconds > 0 { seq![Pause::Seconds(seconds)] } else { Seq::empty() })
        + (if milliseconds > 0 { seq![Pause::Millis(milliseconds)] } else { Seq::empty() })
}

/// The time the suspensions take together, in milliseconds.
pub open spec fn total_millis(p: Seq<Pause>) -> int
    decreases p.len(),
{
    if p.len() == 0 {
        0
    } else {
        total_millis(p.drop_last()) + match p.last() {
            Pause::Seconds(s) => s * 1000,
            Pause::Millis(m) => m as int,
        }
    }
}

/// A delay step suspends for its seconds and its milliseconds together,
/// whichever of them is zero.
pub proof fn lemma_pause_total(seconds: u64, milliseconds: u64)
    ensures
        total_millis(pause_plan(seconds, milliseconds)) == seconds * 1000 + milliseconds,
{
    let p = pause_plan(seconds, milliseconds);
    reveal_with_fuel(total_millis, 3);
    if seconds > 0 && milliseconds > 0 {
        assert(p.drop_last() =~= seq![Pause::Seconds(seconds)]);
        assert(p.drop_last().drop_last() =~= Seq::<Pause>::empty());
    } else if seconds > 0 {
        assert(p =~= seq![Pause::Seconds(seconds)]);
        assert(p.drop_last() =~= Seq::<Pause>::empty());
    } else if milliseconds > 0 {
        assert(p =~= seq![Pause::Millis(milliseconds)]);
        assert(p.drop_last() =~= Seq::<Pause>::empty());
    } else {
        assert(p =~= Seq::<Pause>::empty());
    }
}

impl Delay {
    /// The template node is a delay step: its `delay` is a mapping.
    pub fn is_that_you(item: &Node) -> (r: bool)
        ensures
            r == (item.spec_get("delay"@) matches Some(Node::Hash(_))),
    {
        match item.get("delay") {
            Some(d) => d.is_hash(),
            None => false,
        }
    }

    /// Reads a delay step from its template node: its `name`, and
    /// `delay.seconds` and `delay.milliseconds`, each zero where it is absent
    /// or null. A present count that is not a non-negative integer is refused.
    pub fn new(item: &Node, _with_item: Option<Node>) -> (r: Result<Delay, DelayError>)
        ensures
            !(item.spec_get("name"@) matches Some(Node::Str(_))) ==> r == Err::<Delay, DelayError>(DelayError::MissingName),
            item.spec_get("name"@) matches Some(Node::Str(_)) && count_of(delay_field(*item, "seconds"@)) is None
                ==> r == Err::<Delay, DelayError>(DelayError::InvalidSeconds),
            item.spec_get("name"@) matches Some(Node::Str(_)) && count_of(delay_field(*item, "seconds"@)) is Some
                && count_of(delay_field(*item, "milliseconds"@)) is None
                ==> r == Err::<Delay, DelayError>(DelayError::InvalidMilliseconds),
            r is Ok <==> (item.spec_get("name"@) matches Some(Node::Str(_))
                && count_of(delay_field(*item, "seconds"@)) is Some
                && count_of(delay_field(*item, "milliseconds"@)) is Some),
            r is Ok ==> r->Ok_0.name@ == item.spec_get("name"@)->Some_0->Str_0@
                && Some(r->Ok_0.seconds) == count_of(delay_field(*item, "seconds"@))
                && Some(r->Ok_0.milliseconds) == count_of(delay_field(*item, "milliseconds"@)),
    {
        let name = match item.get("name") {
            Some(Node::Str(s)) => s.clone(),
            _ => return Err(DelayError::MissingName),
        };
        let d = item.get("delay");
        let seconds = match count_field(d, "seconds") {
            Some(s) => s,
            None => return Err(DelayError::InvalidSeconds),
        };
        let milliseconds = match count_field(d, "milliseconds") {
            Some(m) => m,
            None => return Err(DelayError::InvalidMilliseconds),
        };
        Ok(Delay { name, seconds, milliseconds })
    }

    /// The suspensions of one run of the step: its seconds, then its
    /// milliseconds, each only where it is not zero.
    pub fn pauses(&self) -> (r: Vec<Pause>)
        ensures
            r@ == pause_plan(self.seconds, self.milliseconds),
            total_millis(r@) == self.seconds * 1000 + self.milliseconds,
    {
        let mut r: Vec<Pause> = Vec::new();
        if self.seconds > 0 {
            r.push(Pause::Seconds(self.seconds));
        }
        if self.milliseconds > 0 {
            r.push(Pause::Millis(self.milliseconds));
        }
        proof {
            assert(r@ =~= pause_plan(self.seconds, self.milliseconds));
            lemma_pause_total(self.seconds, self.milliseconds);
        }
        r
    }

    /// What a run of the step reports once it has waited: its name and its
    /// seconds, and nothing when `quiet`.
    pub fn report(&self, quiet: bool) -> (r: Option<Report>)
        ensures
            quiet ==> r is None,
            !quiet ==> r is Some && r->Some_0.name@ == self.name@ && r->Some_0.seconds == self.seconds,
    {
        if quiet {
            None
        } else {
            Some(Report { name: self.name.clone(), seconds: self.seconds })
        }
    }
}

/// The count under `key` of the `delay` node `d`, as `count_of` gives it.
fn count_field(d: Option<&Node>, key: &str) -> (r: Option<u64>)
    ensures
        r == count_of(match d {
            Some(n) => n.spec_get(key@),
            None => None,
        }),
{
    let n = match d {
        Some(n) => n.get(key),
        None => None,
    };
    match n {
        None => Some(0),
        Some(Node::Null) => Some(0),
        Some(Node::Integer(i)) => if *i >= 0 {
            Some(*i as u64)
        } else {
            None
        },
        Some(_) => None,
    }
}

} // verus!
