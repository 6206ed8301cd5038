//! Deferred address expressions: an affine node over an optional base (an
//! object whose address is assigned later, a forward reference bound later,
//! or a nested expression), a constant offset and a scale factor. Evaluation
//! folds `base * scale / 4 + offset` once real addresses exist. Forward
//! references live in an explicit arena (`ForwardTable`) and are bound
//! exactly once; rebinding without a reset is an error.

use vstd::prelude::*;
use crate::error::EudError;
use crate::rlocint::{RlocInt, spec_add_i32, spec_mul_i32, spec_try_div_i32, wadd, wsub, wneg, wmul, spec_floor_div_i32, spec_floor_rem_i32};

verus! {

/// What an expression's relocatable part rests on.
#[derive(Debug, PartialEq, Eq)]
pub enum ExprBase {
    /// No base: the expression is a plain constant.
    Empty,
    /// The address of the object with this index, in pointer mode.
    Object(usize),
    /// A forward reference: a slot of a `ForwardTable`.
    Forward(usize),
    /// A nested expression.
    Boxed(Box<ConstExpr>),
}

/// An affine expression: `base * rlocmode / 4 + offset`. A node with mode 0
/// needs no base and evaluates immediately to a constant.
#[derive(Debug, PartialEq, Eq)]
pub struct ConstExpr {
    pub base: ExprBase,
    pub offset: i32,
    pub rlocmode: i32,
}

/// Anything the pipeline can evaluate to a relocatable integer: a plain
/// number, an already-resolved value, or a deferred expression.
#[derive(Debug, PartialEq, Eq)]
pub enum Evaluable {
    Int(i32),
    Rloc(RlocInt),
    Expr(ConstExpr),
}

/// A handle to one slot of a `ForwardTable`.
#[derive(Clone, Copy, Debug, PartialEq, Eq, Structural)]
pub struct Forward {
    pub slot: usize,
}

/// The arena that holds forward bindings: owned state passed explicitly to
/// whoever evaluates, instead of an ambient mutable global.
pub struct ForwardTable {
    slots: Vec<Option<Evaluable>>,
}

/// Reinterpret a `u32` address as the `i32` offset it occupies in a
/// relocatable value (two's complement).
pub open spec fn u32_to_i32(x: u32) -> i32 {
    #[verifier::truncate] (x as i32)
}

/// Evaluate an expression against the assigned object addresses and the
/// forward table, spending one unit of fuel per forward hop. Fuel equal to
/// the table length resolves every acyclic chain of bindings; a cyclic chain
/// never has a determined value and yields `Unbound`.
pub open spec fn spec_eval_expr(
    e: ConstExpr,
    addrs: Seq<u32>,
    fwds: Seq<Option<Evaluable>>,
    fuel: nat,
) -> Result<RlocInt, EudError>
    decreases fuel, e,
{
    if e.rlocmode == 0 {
        Ok(RlocInt { offset: e.offset, rlocmode: 0 })
    } else {
        let base = match e.base {
            ExprBase::Empty => Err(EudError::Unbound),
            ExprBase::Object(id) => if id < addrs.len() {
                Ok(RlocInt { offset: u32_to_i32(addrs[id as int]), rlocmode: 4 })
            } else {
                Err(EudError::Unbound)
            },
            ExprBase::Forward(slot) => if slot < fwds.len() {
                match fwds[slot as int] {
                    None => Err(EudError::Unbound),
                    Some(x) => if fuel == 0 {
                        Err(EudError::Unbound)
                    } else {
                        match x {
                            Evaluable::Int(v) => Ok(RlocInt { offset: v, rlocmode: 0 }),
                            Evaluable::Rloc(r) => Ok(r),
                            Evaluable::Expr(inner) => spec_eval_expr(
                                inner,
                                addrs,
                                fwds,
                                (fuel - 1) as nat,
                            ),
                        }
                    },
                }
            } else {
                Err(EudError::Unbound)
            },
            ExprBase::Boxed(inner) => spec_eval_expr(*inner, addrs, fwds, fuel),
        };
        match base {
            Err(er) => Err(er),
            Ok(b) => match spec_try_div_i32(spec_mul_i32(b, e.rlocmode), 4) {
                Err(er) => Err(er),
                Ok(q) => Ok(spec_add_i32(q, e.offset)),
            },
        }
    }
}

pub open spec fn spec_eval_arg(
    x: Evaluable,
    addrs: Seq<u32>,
    fwds: Seq<Option<Evaluable>>,
    fuel: nat,
) -> Result<RlocInt, EudError> {
    match x {
        Evaluable::Int(v) => Ok(RlocInt { offset: v, rlocmode: 0 }),
        Evaluable::Rloc(r) => Ok(r),
        Evaluable::Expr(e) => spec_eval_expr(e, addrs, fwds, fuel),
    }
}

/// What `evaluate` returns: evaluation with enough fuel for every acyclic
/// forward chain.
pub open spec fn spec_evaluate(
    x: Evaluable,
    addrs: Seq<u32>,
    fwds: Seq<Option<Evaluable>>,
) -> Result<RlocInt, EudError> {
    spec_eval_arg(x, addrs, fwds, fwds.len())
}

fn eval_expr_fuel(
    e: &ConstExpr,
    addrs: &Vec<u32>,
    forwards: &ForwardTable,
    fuel: usize,
) -> (r: Result<RlocInt, EudError>)
    ensures
        r == spec_eval_expr(*e, addrs@, forwards@, fuel as nat),
    decreases fuel, *e,
{
    if e.rlocmode == 0 {
        return Ok(RlocInt { offset: e.offset, rlocmode: 0 });
    }
    let base = match &e.base {
        ExprBase::Empty => Err(EudError::Unbound),
        ExprBase::Object(id) => {
            if *id < addrs.len() {
                let a: u32 = addrs[*id];
                let off: i32 = #[verifier::truncate] (a as i32);
                Ok(RlocInt { offset: off, rlocmode: 4 })
            } else {
                Err(EudError::Unbound)
            }
        },
        ExprBase::Forward(slot) => {
            if *slot < forwards.slots.len() {
                match &forwards.slots[*slot] {
                    None => Err(EudError::Unbound),
                    Some(x) => {
                        if fuel == 0 {
                            Err(EudError::Unbound)
                        } else {
                            match x {
                                Evaluable::Int(v) => Ok(RlocInt { offset: *v, rlocmode: 0 }),
                                Evaluable::Rloc(r) => Ok(*r),
                                Evaluable::Expr(inner) => eval_expr_fuel(
                                    inner,
                                    addrs,
                                    forwards,
                                    fuel - 1,
                                ),
                            }
                        }
                    },
                }
            } else {
                Err(EudError::Unbound)
            }
        },
        ExprBase::Boxed(inner) => eval_expr_fuel(inner, addrs, forwards, fuel),
    };
    match base {
        Err(er) => Err(er),
        Ok(b) => {
            let scaled = b.wrapping_mul_i32(e.rlocmode);
            match scaled.try_div_i32(4) {
                Err(er) => Err(er),
                Ok(q) => Ok(q.wrapping_add_i32(e.offset)),
            }
        },
    }
}

fn eval_arg_fuel(
    x: &Evaluable,
    addrs: &Vec<u32>,
    forwards: &ForwardTable,
    fuel: usize,
) -> (r: Result<RlocInt, EudError>)
    ensures
        r == spec_eval_arg(*x, addrs@, forwards@, fuel as nat),
{
    match x {
        Evaluable::Int(v) => Ok(RlocInt { offset: *v, rlocmode: 0 }),
        Evaluable::Rloc(r) => Ok(*r),
        Evaluable::Expr(e) => eval_expr_fuel(e, addrs, forwards, fuel),
    }
}

/// Evaluate anything evaluable: a plain number is a constant, a relocatable
/// value passes through, an expression is folded against the addresses and
/// the forward table.
pub fn evaluate(
    x: &Evaluable,
    addrs: &Vec<u32>,
    forwards: &ForwardTable,
) -> (r: Result<RlocInt, EudError>)
    ensures
        r == spec_evaluate(*x, addrs@, forwards@),
{
    eval_arg_fuel(x, addrs, forwards, forwards.slots.len())
}

impl View for ForwardTable {
    type V = Seq<Option<Evaluable>>;

    closed spec fn view(&self) -> Seq<Option<Evaluable>> {
        self.slots@
    }
}

impl ForwardTable {
    pub fn new() -> (t: ForwardTable)
        ensures
            t@ == Seq::<Option<Evaluable>>::empty(),
    {
        ForwardTable { slots: Vec::new() }
    }

    pub fn len(&self) -> (n: usize)
        ensures
            n == self@.len(),
    {
        self.slots.len()
    }

    /// A fresh, unbound forward reference.
    pub fn create(&mut self) -> (f: Forward)
        ensures
            final(self)@ == old(self)@.push(None),
            f.slot == old(self)@.len(),
    {
        let slot = self.slots.len();
        self.slots.push(None);
        Forward { slot }
    }

    /// Bind a forward reference, one-shot: binding a slot that is already
    /// bound fails with `AlreadyBound` and changes nothing.
    pub fn bind(&mut self, f: &Forward, x: Evaluable) -> (r: Result<(), EudError>)
        requires
            f.slot < old(self)@.len(),
        ensures
            old(self)@[f.slot as int] is None ==> r == Ok::<(), EudError>(())
                && final(self)@ == old(self)@.update(f.slot as int, Some(x)),
            old(self)@[f.slot as int] is Some ==> r == Err::<(), EudError>(EudError::AlreadyBound)
                && final(self)@ == old(self)@,
    {
        if self.slots[f.slot].is_some() {
            return Err(EudError::AlreadyBound);
        }
        self.slots.set(f.slot, Some(x));
        Ok(())
    }

    /// Clear a binding so the slot can be bound again.
    pub fn reset(&mut self, f: &Forward)
        requires
            f.slot < old(self)@.len(),
        ensures
            final(self)@ == old(self)@.update(f.slot as int, None::<Evaluable>),
    {
        self.slots.set(f.slot, None);
    }

    pub fn is_set(&self, f: &Forward) -> (r: bool)
        requires
            f.slot < self@.len(),
        ensures
            r == (self@[f.slot as int] is Some),
    {
        self.slots[f.slot].is_some()
    }

    /// What the slot is bound to, if anything.
    pub fn get_expr(&self, f: &Forward) -> (r: &Option<Evaluable>)
        requires
            f.slot < self@.len(),
        ensures
            *r == self@[f.slot as int],
    {
        &self.slots[f.slot]
    }

    /// Evaluate a forward reference: `Unbound` before binding, the bound
    /// value's evaluation afterwards.
    pub fn evaluate_forward(&self, f: &Forward, addrs: &Vec<u32>) -> (r: Result<RlocInt, EudError>)
        requires
            f.slot < self@.len(),
        ensures
            r == match self@[f.slot as int] {
                None => Err::<RlocInt, EudError>(EudError::Unbound),
                Some(x) => spec_eval_arg(x, addrs@, self@, self@.len()),
            },
    {
        match &self.slots[f.slot] {
            None => Err(EudError::Unbound),
            Some(x) => eval_arg_fuel(x, addrs, self, self.slots.len()),
        }
    }
}

impl ConstExpr {
    /// A general node. A node with no base must carry scale 0.
    pub fn new(base: ExprBase, offset: i32, rlocmode: i32) -> (r: ConstExpr)
        requires
            base is Empty ==> rlocmode == 0,
        ensures
            r == (ConstExpr { base, offset, rlocmode }),
    {
        ConstExpr { base, offset, rlocmode }
    }

    /// A plain constant.
    pub fn constant(offset: i32) -> (r: ConstExpr)
        ensures
            r == (ConstExpr { base: ExprBase::Empty, offset, rlocmode: 0 }),
    {
        ConstExpr { base: ExprBase::Empty, offset, rlocmode: 0 }
    }

    /// The address of the object with the given index.
    pub fn object(id: usize) -> (r: ConstExpr)
        ensures
            r == (ConstExpr { base: ExprBase::Object(id), offset: 0, rlocmode: 4 }),
    {
        ConstExpr { base: ExprBase::Object(id), offset: 0, rlocmode: 4 }
    }

    /// The value a forward reference will be bound to.
    pub fn forward(f: &Forward) -> (r: ConstExpr)
        ensures
            r == (ConstExpr { base: ExprBase::Forward(f.slot), offset: 0, rlocmode: 4 }),
    {
        ConstExpr { base: ExprBase::Forward(f.slot), offset: 0, rlocmode: 4 }
    }

    /// Evaluate this expression against assigned addresses and forwards.
    pub fn evaluate(&self, addrs: &Vec<u32>, forwards: &ForwardTable) -> (r: Result<
        RlocInt,
        EudError,
    >)
        ensures
            r == spec_eval_expr(*self, addrs@, forwards@, forwards@.len()),
    {
        eval_expr_fuel(self, addrs, forwards, forwards.slots.len())
    }

    /// Add a plain integer; base and scale pass through.
    pub fn add_i32(self, k: i32) -> (r: ConstExpr)
        ensures
            r == (ConstExpr { base: self.base, offset: wadd(self.offset, k), rlocmode: self.rlocmode }),
    {
        ConstExpr {
            base: self.base,
            offset: self.offset.wrapping_add(k),
            rlocmode: self.rlocmode,
        }
    }

    pub fn sub_i32(self, k: i32) -> (r: ConstExpr)
        ensures
            r == (ConstExpr { base: self.base, offset: wsub(self.offset, k), rlocmode: self.rlocmode }),
    {
        ConstExpr {
            base: self.base,
            offset: self.offset.wrapping_sub(k),
            rlocmode: self.rlocmode,
        }
    }

    /// `k - self`: the offset is subtracted from `k`, the scale changes sign.
    pub fn rsub_i32(self, k: i32) -> (r: ConstExpr)
        ensures
            r == (ConstExpr {
                base: self.base,
                offset: wsub(k, self.offset),
                rlocmode: wneg(self.rlocmode),
            }),
    {
        ConstExpr {
            base: self.base,
            offset: k.wrapping_sub(self.offset),
            rlocmode: 0i32.wrapping_sub(self.rlocmode),
        }
    }

    /// Scale by a plain integer. When the scale collapses to zero the base
    /// is dropped: the node has become a plain constant.
    pub fn mul_i32(self, k: i32) -> (r: ConstExpr)
        ensures
            r.offset == wmul(self.offset, k),
            r.rlocmode == wmul(self.rlocmode, k),
            r.base == if wmul(self.rlocmode, k) == 0 {
                ExprBase::Empty
            } else {
                self.base
            },
    {
        let rlocmode = self.rlocmode.wrapping_mul(k);
        ConstExpr {
            base: if rlocmode == 0 {
                ExprBase::Empty
            } else {
                self.base
            },
            offset: self.offset.wrapping_mul(k),
            rlocmode,
        }
    }

    /// Negation flips both the offset and the scale sign.
    pub fn neg(self) -> (r: ConstExpr)
        ensures
            r == (ConstExpr {
                base: self.base,
                offset: wneg(self.offset),
                rlocmode: wneg(self.rlocmode),
            }),
    {
        ConstExpr {
            base: self.base,
            offset: 0i32.wrapping_sub(self.offset),
            rlocmode: 0i32.wrapping_sub(self.rlocmode),
        }
    }

    /// Floor-divide by a plain integer. A relocated node divides only when
    /// its scale divides evenly; the offset floors.
    pub fn floordiv_i32(self, d: i32) -> (r: Result<ConstExpr, EudError>)
        requires
            d != 0,
            !(self.offset == i32::MIN && d == -1),
            !(self.rlocmode == i32::MIN && d == -1),
        ensures
            self.rlocmode != 0 && self.rlocmode as int % d as int != 0 ==> r == Err::<
                ConstExpr,
                EudError,
            >(EudError::NotDivisible),
            self.rlocmode == 0 || self.rlocmode as int % d as int == 0 ==> r == Ok::<
                ConstExpr,
                EudError,
            >(
                ConstExpr {
                    base: self.base,
                    offset: spec_floor_div_i32(self.offset, d),
                    rlocmode: spec_floor_div_i32(self.rlocmode, d),
                },
            ),
    {
        let mode_rem = crate::rlocint::floor_rem_i32(self.rlocmode, d);
        proof {
            crate::rlocint::lemma_floor_rem_zero(self.rlocmode as int, d as int);
        }
        if self.rlocmode != 0 && mode_rem != 0 {
            Err(EudError::NotDivisible)
        } else {
            Ok(ConstExpr {
                base: self.base,
                offset: crate::rlocint::floor_div_i32(self.offset, d),
                rlocmode: crate::rlocint::floor_div_i32(self.rlocmode, d),
            })
        }
    }

    /// Floor remainder of the offset. Only a pointer-mode node whose scale
    /// unit divides evenly supports it: the base is 4-aligned, so the low
    /// bits are the offset's alone.
    pub fn mod_i32(&self, d: i32) -> (r: Result<i32, EudError>)
        requires
            d != 0,
            !(self.offset == i32::MIN && d == -1),
        ensures
            self.rlocmode != 4 || 4 as int % d as int != 0 ==> r == Err::<i32, EudError>(
                EudError::NotDivisible,
            ),
            self.rlocmode == 4 && 4 as int % d as int == 0 ==> r == Ok::<i32, EudError>(
                spec_floor_rem_i32(self.offset, d),
            ),
    {
        let four_rem = match (4i32).checked_rem(d) {
            Some(r) => r,
            None => {
                proof {
                    assert(false);
                }
                0
            },
        };
        proof {
            if d < 0 {
                crate::rlocint::lemma_pos_mod_neg(4, d as int);
            }
        }
        if self.rlocmode != 4 || four_rem != 0 {
            Err(EudError::NotDivisible)
        } else {
            Ok(crate::rlocint::floor_rem_i32(self.offset, d))
        }
    }

    /// Floor division and remainder together, under the conditions of
    /// `mod_i32`; the scale divides exactly.
    pub fn divmod_i32(self, d: i32) -> (r: Result<(ConstExpr, i32), EudError>)
        requires
            d != 0,
            !(self.offset == i32::MIN && d == -1),
        ensures
            self.rlocmode != 4 || 4 as int % d as int != 0 ==> r == Err::<(ConstExpr, i32), EudError>(
                EudError::NotDivisible,
            ),
            self.rlocmode == 4 && 4 as int % d as int == 0 ==> r == Ok::<(ConstExpr, i32), EudError>(
                (
                    ConstExpr {
                        base: self.base,
                        offset: spec_floor_div_i32(self.offset, d),
                        rlocmode: spec_floor_div_i32(4, d),
                    },
                    spec_floor_rem_i32(self.offset, d),
                ),
            ),
    {
        let four_rem = match (4i32).checked_rem(d) {
            Some(r) => r,
            None => {
                proof {
                    assert(false);
                }
                0
            },
        };
        proof {
            if d < 0 {
                crate::rlocint::lemma_pos_mod_neg(4, d as int);
            }
        }
        if self.rlocmode != 4 || four_rem != 0 {
            Err(EudError::NotDivisible)
        } else {
            let q = crate::rlocint::floor_div_i32(self.offset, d);
            let m = crate::rlocint::floor_rem_i32(self.offset, d);
            Ok((
                ConstExpr {
                    base: self.base,
                    offset: q,
                    rlocmode: crate::rlocint::floor_div_i32(4, d),
                },
                m,
            ))
        }
    }

    /// The constant this node stands for, when it has no relocatable part.
    pub fn as_constant(&self) -> (r: Option<i32>)
        ensures
            r == if self.rlocmode == 0 && self.base is Empty {
                Some(self.offset)
            } else {
                None::<i32>
            },
    {
        if self.rlocmode == 0 && matches!(&self.base, ExprBase::Empty) {
            Some(self.offset)
        } else {
            None
        }
    }

    /// A pointer-mode node whose offset is 4-byte aligned.
    pub fn is_aligned_ptr(&self) -> (r: bool)
        ensures
            r == (self.rlocmode == 4 && self.offset as int % 4 == 0),
    {
        let rem = match self.offset.checked_rem(4) {
            Some(r) => r,
            None => {
                proof {
                    assert(false);
                }
                0
            },
        };
        self.rlocmode == 4 && rem == 0
    }

    pub fn is_epd(&self) -> (r: bool)
        ensures
            r == (self.rlocmode == 1),
    {
        self.rlocmode == 1
    }
}

} // verus!
