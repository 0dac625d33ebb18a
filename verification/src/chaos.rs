//! Fault injection on the messages an actor receives: loss and duplication.
use vstd::prelude::*;

verus! {

/// A probability in `[0, 1]`, carried as the IEEE-754 bit pattern of the
/// `f32` it was given as; the random draw against it happens outside.
#[derive(Debug, Clone, Copy, PartialEq, Eq, Structural)]
pub struct Probability(pub u32);

/// The chaos settings of one actor.
#[derive(Debug, Clone, Copy, PartialEq, Eq, Structural)]
pub struct ChaosManager {
    pub msg_loss_probability: Option<Probability>,
    pub msg_duplication_factor: Option<u32>,
    pub msg_duplication_probability: Option<Probability>,
}

/// The outcome of one delivery under chaos: how many copies of the message
/// reach the processor.
pub open spec fn spec_chaos_copies(cm: ChaosManager, loss_hit: bool, dup_hit: bool) -> nat {
    if cm.msg_loss_probability is Some && loss_hit {
        0
    } else if cm.msg_duplication_factor is Some && cm.msg_duplication_probability is Some
        && dup_hit {
        cm.msg_duplication_factor->0 as nat
    } else {
        1
    }
}

impl ChaosManager {
    /// No chaos at all.
    pub fn new() -> (r: Self)
        ensures
            r.msg_loss_probability is None,
            r.msg_duplication_factor is None,
            r.msg_duplication_probability is None,
    {
        ChaosManager {
            msg_loss_probability: None,
            msg_duplication_factor: None,
            msg_duplication_probability: None,
        }
    }

    pub fn set_msg_loss(&mut self, probability: Probability)
        ensures
            *final(self) == (ChaosManager {
                msg_loss_probability: Some(probability),
                ..*old(self)
            }),
    {
        self.msg_loss_probability = Some(probability);
    }

    pub fn set_msg_duplication(&mut self, factor: u32, probability: Probability)
        ensures
            *final(self) == (ChaosManager {
                msg_duplication_factor: Some(factor),
                msg_duplication_probability: Some(probability),
                ..*old(self)
            }),
    {
        self.msg_duplication_factor = Some(factor);
        self.msg_duplication_probability = Some(probability);
    }

    pub fn unset_msg_loss(&mut self)
        ensures
            *final(self) == (ChaosManager { msg_loss_probability: None, ..*old(self) }),
    {
        self.msg_loss_probability = None;
    }

    pub fn unset_msg_duplication(&mut self)
        ensures
            *final(self) == (ChaosManager {
                msg_duplication_factor: None,
                msg_duplication_probability: None,
                ..*old(self)
            }),
    {
        self.msg_duplication_factor = None;
        self.msg_duplication_probability = None;
    }

    /// The probability to draw against for a loss, when loss is enabled.
    pub fn loss_roll(&self) -> (r: Option<Probability>)
        ensures
            r == self.msg_loss_probability,
    {
        self.msg_loss_probability
    }

    /// The probability to draw against for a duplication, when duplication
    /// is enabled.
    pub fn duplication_roll(&self) -> (r: Option<Probability>)
        ensures
            r == (if self.msg_duplication_factor is Some {
                self.msg_duplication_probability
            } else {
                None
            }),
    {
        match self.msg_duplication_factor {
            Some(_) => self.msg_duplication_probability,
            None => None,
        }
    }

    /// Applies chaos to one message, given the outcome of the random draws:
    /// `loss_hit` for the loss draw, `dup_hit` for the duplication draw. A
    /// lost message yields nothing; a duplicated one yields `factor` copies;
    /// otherwise the message passes once. Loss is decided before duplication.
    pub fn apply_chaos<T: Clone>(&self, msg: T, loss_hit: bool, dup_hit: bool) -> (r: Vec<T>)
        ensures
            r@.len() == spec_chaos_copies(*self, loss_hit, dup_hit),
            forall|i: int| 0 <= i < r@.len() ==> cloned(msg, #[trigger] r@[i]),
    {
        if self.msg_loss_probability.is_some() && loss_hit {
            return Vec::new();
        }
        match (self.msg_duplication_factor, self.msg_duplication_probability) {
            (Some(factor), Some(_)) => {
                if dup_hit {
                    return copies(msg, factor);
                }
            },
            _ => {},
        }
        let mut v: Vec<T> = Vec::new();
        v.push(msg);
        v
    }
}

/// Without any chaos configured, every message passes exactly once, whatever
/// the draws.
pub proof fn law_no_chaos_passes_once(loss_hit: bool, dup_hit: bool)
    ensures
        spec_chaos_copies(
            ChaosManager {
                msg_loss_probability: None,
                msg_duplication_factor: None,
                msg_duplication_probability: None,
            },
            loss_hit,
            dup_hit,
        ) == 1,
{
}

/// A message under chaos is lost, passes once, or is duplicated by the
/// configured factor; nothing else.
pub proof fn law_chaos_outcomes(cm: ChaosManager, loss_hit: bool, dup_hit: bool)
    ensures
        spec_chaos_copies(cm, loss_hit, dup_hit) == 0 || spec_chaos_copies(cm, loss_hit, dup_hit)
            == 1 || (cm.msg_duplication_factor matches Some(f) && spec_chaos_copies(
            cm,
            loss_hit,
            dup_hit,
        ) == f as nat),
        cm.msg_loss_probability is None ==> spec_chaos_copies(cm, loss_hit, dup_hit) > 0 || (
        cm.msg_duplication_factor == Some(0u32)),
{
}

/// `n` copies of `msg`: clones, then the message itself last.
fn copies<T: Clone>(msg: T, n: u32) -> (r: Vec<T>)
    ensures
        r@.len() == n,
        forall|i: int| 0 <= i < r@.len() ==> cloned(msg, #[trigger] r@[i]),
{
    let mut v: Vec<T> = Vec::new();
    if n == 0 {
        return v;
    }
    let mut k: u32 = 1;
    while k < n
        invariant
            1 <= k <= n,
            v@.len() == k - 1,
            forall|i: int| 0 <= i < v@.len() ==> cloned(msg, #[trigger] v@[i]),
        decreases n - k,
    {
        v.push(msg.clone());
        k = k + 1;
    }
    v.push(msg);
    v
}

} // verus!

verus! {

/// A message whose loss draw hits while loss is set is dropped; otherwise,
/// one whose duplication draw hits while duplication is set arrives `factor`
/// times; otherwise it arrives once.
pub proof fn law_chaos_copies_exact(cm: ChaosManager, loss_hit: bool, dup_hit: bool)
    ensures
        cm.msg_loss_probability is Some && loss_hit ==> spec_chaos_copies(cm, loss_hit, dup_hit) == 0,
        !(cm.msg_loss_probability is Some && loss_hit) && dup_hit && cm.msg_duplication_probability is Some
            ==> (cm.msg_duplication_factor matches Some(f) ==> spec_chaos_copies(cm, loss_hit, dup_hit)
            == f as nat),
        !(cm.msg_loss_probability is Some && loss_hit) && !(dup_hit && cm.msg_duplication_factor is Some
            && cm.msg_duplication_probability is Some) ==> spec_chaos_copies(cm, loss_hit, dup_hit) == 1,
{
}

} // verus!
