use metasafe::cfg::{
    Block, CalleeInfo, Cfg, Operand, Place, SafetyTag, Statement, StmtKind, Terminator,
    TerminatorKind,
};
use metasafe::pass::PassContext;
use metasafe::validators::{
    calculate_validator, type_region_tag, MetaSafeAddValidators, PassError, TypeDesc,
    TypeRegistry, ValidatorImpl,
};

fn ctx() -> PassContext {
    PassContext {
        instrumentation_enabled: true,
        body_is_local: true,
        crate_name: String::from("widgets"),
    }
}

fn plain_type() -> TypeDesc {
    TypeDesc { is_smart_pointer: false, contains_protected: false, held_param: None, impls: vec![] }
}

fn protected_type(validator: usize, held: Option<usize>) -> TypeDesc {
    TypeDesc {
        is_smart_pointer: true,
        contains_protected: false,
        held_param: held,
        impls: vec![ValidatorImpl { has_item: true, item: validator }],
    }
}

/// Type 0: a protected pointer with validator 77 holding type 1.
/// Type 1: a plain type.  Type 2: a protected pointer with validator 88
/// holding type 0.
fn registry() -> TypeRegistry {
    TypeRegistry {
        capability_known: true,
        types: vec![
            protected_type(77, Some(1)),
            plain_type(),
            protected_type(88, Some(0)),
        ],
    }
}

fn call_block(receiver_local: usize, impl_ty: usize, sig_unsafe: bool, dest_block: usize) -> Block {
    Block {
        stmts: vec![Statement { tag: SafetyTag::Safe, kind: StmtKind::Inst }],
        term: Terminator {
            tag: SafetyTag::Unsafe,
            kind: TerminatorKind::Call {
                callee: CalleeInfo {
                    fn_id: 5,
                    impl_ty: Some(impl_ty),
                    trait_unsafe: None,
                    sig_unsafe,
                },
                args: vec![Operand::Copy(Place { local: receiver_local })],
                dest: Some((Place { local: 1 }, dest_block)),
            },
        },
    }
}

fn exit_block() -> Block {
    Block {
        stmts: vec![],
        term: Terminator { tag: SafetyTag::Safe, kind: TerminatorKind::Other { succs: vec![] } },
    }
}

#[test]
fn validator_insertion_preserves_call() {
    // Local 0 holds a value of protected type 0; block 0 calls an unsafe
    // capability on it and continues to block 1.
    let cfg = Cfg {
        locals: vec![Some(0), None],
        blocks: vec![call_block(0, 0, true, 1), exit_block()],
    };
    let reg = registry();
    let result = MetaSafeAddValidators.run_pass(&ctx(), &reg, &cfg).unwrap();
    let (rewritten, anns) = result;

    assert_eq!(anns.len(), 1);
    let ann = anns[0];
    assert_eq!(ann.site, 0);
    assert_eq!(ann.validator, 77);
    assert_eq!(ann.new_block, 2);
    // Held type parameter of type 0 is type 1, a plain type: tag 1.
    assert_eq!(ann.type_region_tag, 1);

    // One synthesized block; two fresh temporaries (unit result and the
    // receiver reference).
    assert_eq!(rewritten.blocks.len(), 3);
    assert_eq!(rewritten.locals.len(), 4);
    assert_eq!(rewritten.locals[2], None);
    assert_eq!(rewritten.locals[3], Some(0));

    // The site block gained the borrow of the receiver and now continues to
    // the synthesized block, with the original destination place kept.
    let site = &rewritten.blocks[0];
    assert_eq!(site.stmts.len(), 2);
    assert_eq!(site.stmts[1].kind, StmtKind::RefAssign { dest: 3, src: 0 });
    match &site.term.kind {
        TerminatorKind::Call { callee, args, dest } => {
            assert_eq!(callee.fn_id, 5);
            assert_eq!(args.len(), 1);
            assert_eq!(*dest, Some((Place { local: 1 }, 2)));
        }
        _ => panic!("site terminator is still a call"),
    }

    // The synthesized block calls the bound validator exactly once, with
    // the reference temporary, and continues to the original destination.
    let synth = &rewritten.blocks[2];
    assert!(synth.stmts.is_empty());
    match &synth.term.kind {
        TerminatorKind::Call { callee, args, dest } => {
            assert_eq!(callee.fn_id, 77);
            assert_eq!(args.as_slice(), &[Operand::Copy(Place { local: 3 })]);
            assert_eq!(*dest, Some((Place { local: 2 }, 1)));
        }
        _ => panic!("synthesized terminator is a call"),
    }
}

#[test]
fn safe_capability_is_not_rewritten() {
    let cfg = Cfg {
        locals: vec![Some(0), None],
        blocks: vec![call_block(0, 0, false, 1), exit_block()],
    };
    let reg = registry();
    let (rewritten, anns) = MetaSafeAddValidators.run_pass(&ctx(), &reg, &cfg).unwrap();
    assert!(anns.is_empty());
    assert_eq!(rewritten.blocks.len(), 2);
    assert_eq!(rewritten.locals.len(), 2);
}

#[test]
fn type_region_tags() {
    let reg = registry();
    // Held type parameter is itself protected: tag 0.
    assert_eq!(type_region_tag(&reg, 2), 0);
    // Plain held type: tag 1.
    assert_eq!(type_region_tag(&reg, 0), 1);
    // No held type parameter: tag 0 by convention.
    assert_eq!(type_region_tag(&reg, 1), 0);
}

#[test]
fn resolution_finds_single_validator() {
    let reg = registry();
    assert_eq!(calculate_validator(&reg, 0), Ok(Some(77)));
    assert_eq!(calculate_validator(&reg, 1), Ok(None));
}

#[test]
fn resolution_rejects_multiple_validators() {
    let reg = TypeRegistry {
        capability_known: true,
        types: vec![TypeDesc {
            is_smart_pointer: true,
            contains_protected: false,
            held_param: None,
            impls: vec![
                ValidatorImpl { has_item: true, item: 10 },
                ValidatorImpl { has_item: true, item: 11 },
            ],
        }],
    };
    assert_eq!(calculate_validator(&reg, 0), Err(PassError::MultipleValidators));
}

#[test]
fn resolution_rejects_missing_item() {
    let reg = TypeRegistry {
        capability_known: true,
        types: vec![TypeDesc {
            is_smart_pointer: true,
            contains_protected: false,
            held_param: None,
            impls: vec![ValidatorImpl { has_item: false, item: 0 }],
        }],
    };
    assert_eq!(calculate_validator(&reg, 0), Err(PassError::MissingSynchronizeItem));
}

#[test]
fn protected_type_without_validator_is_fatal() {
    let reg = TypeRegistry {
        capability_known: true,
        types: vec![TypeDesc {
            is_smart_pointer: true,
            contains_protected: false,
            held_param: None,
            impls: vec![],
        }],
    };
    let cfg = Cfg {
        locals: vec![Some(0), None],
        blocks: vec![call_block(0, 0, true, 1), exit_block()],
    };
    let r = MetaSafeAddValidators.run_pass(&ctx(), &reg, &cfg);
    assert_eq!(r, Err(PassError::NoValidatorForProtectedType));
}

#[test]
fn exempt_crate_skips_validators() {
    let cfg = Cfg {
        locals: vec![Some(0), None],
        blocks: vec![call_block(0, 0, true, 1), exit_block()],
    };
    let reg = registry();
    let exempt_ctx = PassContext {
        instrumentation_enabled: true,
        body_is_local: true,
        crate_name: String::from("libc"),
    };
    let (rewritten, anns) = MetaSafeAddValidators.run_pass(&exempt_ctx, &reg, &cfg).unwrap();
    assert!(anns.is_empty());
    assert_eq!(rewritten.blocks.len(), 2);
}
