use eudalloc::constexpr::{evaluate, ConstExpr, Evaluable, ExprBase, ForwardTable};
use eudalloc::error::EudError;
use eudalloc::rlocint::RlocInt;

#[test]
fn constant_evaluates_without_bases() {
    let fwd = ForwardTable::new();
    let addrs: Vec<u32> = Vec::new();
    let e = ConstExpr::constant(42);
    assert_eq!(e.evaluate(&addrs, &fwd), Ok(RlocInt::new(42, 0)));
    assert_eq!(e.as_constant(), Some(42));
}

#[test]
fn object_base_evaluates_to_its_address() {
    let fwd = ForwardTable::new();
    let addrs: Vec<u32> = vec![16, 40];
    let e = ConstExpr::object(1);
    assert_eq!(e.evaluate(&addrs, &fwd), Ok(RlocInt::new(40, 4)));
    // offset arithmetic rides on top of the base
    let e2 = ConstExpr::object(1).add_i32(8);
    assert_eq!(e2.evaluate(&addrs, &fwd), Ok(RlocInt::new(48, 4)));
    // an unplaced object cannot be evaluated
    let e3 = ConstExpr::object(7);
    assert_eq!(e3.evaluate(&addrs, &fwd), Err(EudError::Unbound));
}

#[test]
fn scale_folds_through_division_by_four() {
    let fwd = ForwardTable::new();
    let addrs: Vec<u32> = vec![16];
    // an EPD view of an object: scale 1 divides the pointer base by 4
    let e = ConstExpr::new(ExprBase::Object(0), 3, 1);
    assert_eq!(e.evaluate(&addrs, &fwd), Ok(RlocInt::new(7, 1)));
    // a scale that does not divide evenly is reported, never truncated
    let addrs2: Vec<u32> = vec![18];
    let e2 = ConstExpr::new(ExprBase::Object(0), 0, 1);
    assert_eq!(e2.evaluate(&addrs2, &fwd), Err(EudError::NotDivisible));
}

#[test]
fn nested_expressions_evaluate_recursively() {
    let fwd = ForwardTable::new();
    let addrs: Vec<u32> = vec![16];
    let inner = ConstExpr::object(0).add_i32(4);
    let outer = ConstExpr::new(ExprBase::Boxed(Box::new(inner)), 2, 4);
    assert_eq!(outer.evaluate(&addrs, &fwd), Ok(RlocInt::new(22, 4)));
}

#[test]
fn expression_arithmetic() {
    let e = ConstExpr::object(3).add_i32(10).sub_i32(4);
    assert_eq!(e.offset, 6);
    assert_eq!(e.rlocmode, 4);
    let n = ConstExpr::object(3).neg();
    assert_eq!(n.rlocmode, -4);
    let r = ConstExpr::object(3).add_i32(5).rsub_i32(2);
    assert_eq!(r.offset, -3);
    assert_eq!(r.rlocmode, -4);
    // scaling to zero drops the base: the node is a plain constant now
    let z = ConstExpr::object(3).add_i32(5).mul_i32(0);
    assert_eq!(z.base, ExprBase::Empty);
    assert_eq!(z.rlocmode, 0);
    let m = ConstExpr::object(3).mul_i32(2);
    assert_eq!(m.rlocmode, 8);
    assert_eq!(m.base, ExprBase::Object(3));
}

#[test]
fn floordiv_and_mod() {
    // a pointer-mode node floor-divides when the scale divides evenly
    let e = ConstExpr::object(0).add_i32(7);
    let q = e.floordiv_i32(2).unwrap();
    assert_eq!(q.offset, 3);
    assert_eq!(q.rlocmode, 2);
    // a scale that does not divide is an error
    let e2 = ConstExpr::new(ExprBase::Object(0), 0, 1);
    assert_eq!(e2.floordiv_i32(2), Err(EudError::NotDivisible));
    // modulo asks for pointer mode and a divisor of the scale unit
    let e3 = ConstExpr::object(0).add_i32(7);
    assert_eq!(e3.mod_i32(4), Ok(3));
    assert_eq!(e3.mod_i32(2), Ok(1));
    let epd = ConstExpr::new(ExprBase::Object(0), 7, 1);
    assert_eq!(epd.mod_i32(4), Err(EudError::NotDivisible));
    let e4 = ConstExpr::object(0).add_i32(7);
    assert_eq!(e4.mod_i32(3), Err(EudError::NotDivisible));
    // divmod returns quotient node and remainder together
    let e5 = ConstExpr::object(0).add_i32(7);
    let (q5, m5) = e5.divmod_i32(4).unwrap();
    assert_eq!(q5.offset, 1);
    assert_eq!(q5.rlocmode, 1);
    assert_eq!(m5, 3);
}

#[test]
fn predicates() {
    assert!(ConstExpr::object(0).is_aligned_ptr());
    assert!(!ConstExpr::object(0).add_i32(2).is_aligned_ptr());
    assert!(ConstExpr::new(ExprBase::Object(0), 0, 1).is_epd());
    assert!(!ConstExpr::object(0).is_epd());
}

#[test]
fn forward_binds_exactly_once() {
    let mut fwd = ForwardTable::new();
    let addrs: Vec<u32> = Vec::new();
    let f = fwd.create();
    assert!(!fwd.is_set(&f));
    // evaluating before binding fails
    assert_eq!(fwd.evaluate_forward(&f, &addrs), Err(EudError::Unbound));
    let e = ConstExpr::forward(&f);
    assert_eq!(e.evaluate(&addrs, &fwd), Err(EudError::Unbound));
    // binding succeeds once
    assert_eq!(fwd.bind(&f, Evaluable::Int(9)), Ok(()));
    assert!(fwd.is_set(&f));
    assert_eq!(fwd.evaluate_forward(&f, &addrs), Ok(RlocInt::new(9, 0)));
    // rebinding without a reset is refused
    assert_eq!(fwd.bind(&f, Evaluable::Int(10)), Err(EudError::AlreadyBound));
    assert_eq!(fwd.evaluate_forward(&f, &addrs), Ok(RlocInt::new(9, 0)));
    // after a reset the slot is free again
    fwd.reset(&f);
    assert!(!fwd.is_set(&f));
    assert_eq!(fwd.bind(&f, Evaluable::Int(10)), Ok(()));
    assert_eq!(fwd.evaluate_forward(&f, &addrs), Ok(RlocInt::new(10, 0)));
}

#[test]
fn forward_to_expression_and_value() {
    let mut fwd = ForwardTable::new();
    let addrs: Vec<u32> = vec![100];
    let f = fwd.create();
    fwd.bind(&f, Evaluable::Expr(ConstExpr::object(0).add_i32(4))).unwrap();
    // a forward used as a base evaluates through its binding
    let e = ConstExpr::forward(&f).add_i32(1);
    assert_eq!(e.evaluate(&addrs, &fwd), Ok(RlocInt::new(105, 4)));
    // a forward bound to an already-resolved value passes it through
    let g = fwd.create();
    fwd.bind(&g, Evaluable::Rloc(RlocInt::new(12, 4))).unwrap();
    assert_eq!(fwd.evaluate_forward(&g, &addrs), Ok(RlocInt::new(12, 4)));
}

#[test]
fn evaluate_accepts_anything_evaluable() {
    let fwd = ForwardTable::new();
    let addrs: Vec<u32> = vec![8];
    assert_eq!(evaluate(&Evaluable::Int(5), &addrs, &fwd), Ok(RlocInt::new(5, 0)));
    assert_eq!(
        evaluate(&Evaluable::Rloc(RlocInt::new(3, 1)), &addrs, &fwd),
        Ok(RlocInt::new(3, 1))
    );
    assert_eq!(
        evaluate(&Evaluable::Expr(ConstExpr::object(0)), &addrs, &fwd),
        Ok(RlocInt::new(8, 4))
    );
}
