//! The validator-insertion pass: for every call of an unsafe capability on
//! a protected smart-pointer type, it synthesizes a block that calls the
//! type's bound validator with a read-only reference to the receiver, and
//! routes the original call's destination edge through that block.
//!
//! Validator resolution is driven by an explicit registry built from the
//! front end's capability information: exactly one validator may be bound
//! per type, and a type that declares itself protected but has none is a
//! fatal configuration error caught before any code is emitted.

use vstd::prelude::*;

use crate::cfg::{
    block_like, cfg_like, copy_block, copy_cfg, copy_locals, copy_stmts, copy_terminator, Block,
    CalleeInfo, Cfg, Operand, Place, SafetyTag, Statement, StmtKind, Terminator, TerminatorKind,
};
use crate::pass::PassContext;

verus! {

/// One implementation of the validator capability found for a type.  The
/// front end may report an impl that lacks the expected synchronize item.
#[derive(Clone, Copy, PartialEq, Eq, Structural, Debug)]
pub struct ValidatorImpl {
    pub has_item: bool,
    pub item: usize,
}

/// What the registry knows about one type.
#[derive(PartialEq, Eq, Debug)]
pub struct TypeDesc {
    /// The type declares itself a protected smart pointer.
    pub is_smart_pointer: bool,
    /// The type transitively contains a protected smart pointer.
    pub contains_protected: bool,
    /// The type's held/generic type parameter, if it has one.
    pub held_param: Option<usize>,
    /// The validator capability impls found for the type.
    pub impls: Vec<ValidatorImpl>,
}

/// The validator registry: a mapping from type identity to the validator
/// capability information the front end resolved, built once and then
/// queried functionally.
#[derive(PartialEq, Eq, Debug)]
pub struct TypeRegistry {
    /// Whether the validator capability trait is known to the compilation
    /// at all; without it nothing resolves.
    pub capability_known: bool,
    pub types: Vec<TypeDesc>,
}

impl TypeRegistry {
    pub open spec fn n_types(self) -> int {
        self.types@.len() as int
    }

    /// Every held-parameter reference stays inside the registry.
    pub open spec fn wf(self) -> bool {
        forall|t: int|
            0 <= t < self.n_types() ==> match (#[trigger] self.types@[t]).held_param {
                Option::Some(h) => h < self.types@.len(),
                Option::None => true,
            }
    }
}

/// A configuration error that stops the pass, and the build, before any
/// code is emitted.
#[derive(Clone, Copy, PartialEq, Eq, Structural, Debug)]
pub enum PassError {
    /// An impl of the validator capability lacks its synchronize item.
    MissingSynchronizeItem,
    /// More than one validator impl is bound to a single type.
    MultipleValidators,
    /// A type declares itself protected but has no bound validator.
    NoValidatorForProtectedType,
}

/// What scanning the validator impls in order yields: the single bound
/// validator, none, or the first configuration error met.
pub open spec fn resolve_from(impls: Seq<ValidatorImpl>, acc: Option<usize>) -> Result<
    Option<usize>,
    PassError,
>
    decreases impls.len(),
{
    if impls.len() == 0 {
        Result::Ok(acc)
    } else if !impls[0].has_item {
        Result::Err(PassError::MissingSynchronizeItem)
    } else if acc is Some {
        Result::Err(PassError::MultipleValidators)
    } else {
        resolve_from(impls.drop_first(), Option::Some(impls[0].item))
    }
}

/// Validator resolution for type `t`: nothing resolves when the capability
/// trait is unknown; otherwise the impls are scanned in order.
pub open spec fn spec_resolve(reg: TypeRegistry, t: int) -> Result<Option<usize>, PassError> {
    if !reg.capability_known {
        Result::Ok(Option::None)
    } else {
        resolve_from(reg.types@[t].impls@, Option::None)
    }
}

/// Resolution found exactly one bound validator.
pub open spec fn resolves_to_some(reg: TypeRegistry, t: int) -> bool {
    match spec_resolve(reg, t) {
        Result::Ok(Option::Some(_)) => true,
        _ => false,
    }
}

/// The validator that resolution found (meaningful only under
/// [`resolves_to_some`]).
pub open spec fn resolved_validator(reg: TypeRegistry, t: int) -> usize {
    match spec_resolve(reg, t) {
        Result::Ok(Option::Some(v)) => v,
        _ => 0,
    }
}

/// Finds the validator bound to type `ty`: `Ok(None)` when the type has no
/// validator impl, `Ok(Some(v))` when it has exactly one, and an error when
/// an impl lacks its item or several validators are bound.
pub fn calculate_validator(reg: &TypeRegistry, ty: usize) -> (r: Result<Option<usize>, PassError>)
    requires
        ty < reg.n_types(),
    ensures
        r == spec_resolve(*reg, ty as int),
{
    if !reg.capability_known {
        return Result::Ok(Option::None);
    }
    let impls = &reg.types[ty].impls;
    let mut acc: Option<usize> = Option::None;
    let mut j: usize = 0;
    proof {
        assert(impls@.skip(0) =~= impls@);
    }
    while j < impls.len()
        invariant
            j <= impls@.len(),
            spec_resolve(*reg, ty as int) == resolve_from(impls@.skip(j as int), acc),
        decreases impls@.len() - j,
    {
        proof {
            assert(impls@.skip(j as int)[0] == impls@[j as int]);
            assert(impls@.skip(j as int).drop_first() =~= impls@.skip(j as int + 1));
        }
        if !impls[j].has_item {
            return Result::Err(PassError::MissingSynchronizeItem);
        }
        if acc.is_some() {
            return Result::Err(PassError::MultipleValidators);
        }
        acc = Option::Some(impls[j].item);
        j += 1;
    }
    proof {
        assert(impls@.skip(impls@.len() as int) =~= Seq::<ValidatorImpl>::empty());
    }
    Result::Ok(acc)
}

/// The type-region classification of a protected receiver type: tag 0 when
/// its held type parameter is itself protected or transitively contains a
/// protected pointer, tag 1 for a plain held type, and tag 0 by convention
/// when there is no held type parameter.
pub open spec fn spec_type_region_tag(reg: TypeRegistry, t: int) -> u64 {
    match reg.types@[t].held_param {
        Option::Some(h) => {
            if reg.types@[h as int].is_smart_pointer || reg.types@[h as int].contains_protected {
                0
            } else {
                1
            }
        },
        Option::None => 0,
    }
}

/// Computes the type-region tag of a receiver type.
pub fn type_region_tag(reg: &TypeRegistry, t: usize) -> (r: u64)
    requires
        reg.wf(),
        t < reg.n_types(),
    ensures
        r == spec_type_region_tag(*reg, t as int),
{
    match reg.types[t].held_param {
        Option::Some(h) => {
            if reg.types[h].is_smart_pointer || reg.types[h].contains_protected {
                0
            } else {
                1
            }
        },
        Option::None => 0,
    }
}

/// The block's terminator calls an unsafe capability of a protected type
/// with a resolved validator, on a directly copied receiver of that very
/// type — all the conditions for validator insertion except having a
/// return destination.
pub open spec fn almost_qualifying(reg: TypeRegistry, cfg: Cfg, b: int) -> bool {
    &&& 0 <= b < cfg.n_blocks()
    &&& match cfg.blocks@[b].term.kind {
        TerminatorKind::Call { callee, args, dest: _ } => {
            match callee.impl_ty {
                Option::Some(t) => {
                    &&& resolves_to_some(reg, t as int)
                    &&& callee.capability_unsafe()
                    &&& args@.len() > 0
                    &&& match args@[0] {
                        Operand::Copy(p) => p.local < cfg.locals@.len() && cfg.locals@[p.local as int]
                            == Option::Some(t),
                        _ => false,
                    }
                },
                Option::None => false,
            }
        },
        _ => false,
    }
}

/// A call site that receives a validator: all conditions of
/// [`almost_qualifying`] plus a return destination to route through the
/// synthesized block.
pub open spec fn qualifying(reg: TypeRegistry, cfg: Cfg, b: int) -> bool {
    &&& almost_qualifying(reg, cfg, b)
    &&& cfg.blocks@[b].term.kind matches TerminatorKind::Call { dest: Option::Some(_), .. }
}

/// The receiver type of the call site (meaningful under `qualifying`).
pub open spec fn site_ty(cfg: Cfg, b: int) -> usize {
    match cfg.blocks@[b].term.kind {
        TerminatorKind::Call { callee, .. } => match callee.impl_ty {
            Option::Some(t) => t,
            Option::None => 0,
        },
        _ => 0,
    }
}

/// The callee of the call site (meaningful under `qualifying`).
pub open spec fn site_callee(cfg: Cfg, b: int) -> CalleeInfo {
    match cfg.blocks@[b].term.kind {
        TerminatorKind::Call { callee, .. } => callee,
        _ => CalleeInfo { fn_id: 0, impl_ty: Option::None, trait_unsafe: Option::None, sig_unsafe: false },
    }
}

/// The arguments of the call site (meaningful under `qualifying`).
pub open spec fn site_args(cfg: Cfg, b: int) -> Seq<Operand> {
    match cfg.blocks@[b].term.kind {
        TerminatorKind::Call { args, .. } => args@,
        _ => Seq::empty(),
    }
}

/// The receiver place of the call site (meaningful under `qualifying`).
pub open spec fn site_receiver(cfg: Cfg, b: int) -> Place {
    match cfg.blocks@[b].term.kind {
        TerminatorKind::Call { args, .. } => match args@[0] {
            Operand::Copy(p) => p,
            _ => Place { local: 0 },
        },
        _ => Place { local: 0 },
    }
}

/// The destination of the call site (meaningful under `qualifying`).
pub open spec fn site_dest(cfg: Cfg, b: int) -> (Place, usize) {
    match cfg.blocks@[b].term.kind {
        TerminatorKind::Call { dest: Option::Some(d), .. } => d,
        _ => (Place { local: 0 }, 0),
    }
}

/// The configuration error block `b` surfaces, if any: resolution failed,
/// or the type is a self-declared protected pointer without any validator.
pub open spec fn block_config_error(reg: TypeRegistry, cfg: Cfg, b: int) -> Option<PassError> {
    match cfg.blocks@[b].term.kind {
        TerminatorKind::Call { callee, .. } => match callee.impl_ty {
            Option::Some(t) => match spec_resolve(reg, t as int) {
                Result::Err(e) => Option::Some(e),
                Result::Ok(Option::None) => {
                    if reg.types@[t as int].is_smart_pointer {
                        Option::Some(PassError::NoValidatorForProtectedType)
                    } else {
                        Option::None
                    }
                },
                Result::Ok(Option::Some(_)) => Option::None,
            },
            Option::None => Option::None,
        },
        _ => Option::None,
    }
}

/// Some block below `b` surfaces a configuration error.
pub open spec fn config_error_before(reg: TypeRegistry, cfg: Cfg, b: int) -> bool {
    exists|x: int| 0 <= x < b && (#[trigger] block_config_error(reg, cfg, x)) is Some
}

/// The body's configuration is inconsistent somewhere.
pub open spec fn has_config_error(reg: TypeRegistry, cfg: Cfg) -> bool {
    config_error_before(reg, cfg, cfg.n_blocks())
}

/// Every receiver type a callee names is known to the registry.
pub open spec fn compat(reg: TypeRegistry, cfg: Cfg) -> bool {
    forall|b: int|
        0 <= b < cfg.n_blocks() ==> match (#[trigger] cfg.blocks@[b]).term.kind {
            TerminatorKind::Call { callee, .. } => match callee.impl_ty {
                Option::Some(t) => t < reg.n_types(),
                Option::None => true,
            },
            _ => true,
        }
}

/// What the pass records about one rewritten call site.
#[derive(Clone, Copy, PartialEq, Eq, Structural, Debug)]
pub struct SiteAnnotation {
    /// The block whose call was rewritten.
    pub site: usize,
    /// The validator the synthesized block calls.
    pub validator: usize,
    /// The synthesized block.
    pub new_block: usize,
    /// The type-region classification of the receiver type.
    pub type_region_tag: u64,
}

/// Everything the rewrite needs to know about one qualifying call site.
#[derive(Clone, Copy, PartialEq, Eq, Structural, Debug)]
struct SiteInfo {
    block: usize,
    ty: usize,
    validator: usize,
    tag: u64,
    recv: Place,
    dest_place: Place,
    dest_block: usize,
}

/// The site data the rewrite derives for a qualifying block.
spec fn spec_site_info(reg: TypeRegistry, cfg: Cfg, b: int) -> SiteInfo {
    SiteInfo {
        block: b as usize,
        ty: site_ty(cfg, b),
        validator: resolved_validator(reg, site_ty(cfg, b) as int),
        tag: spec_type_region_tag(reg, site_ty(cfg, b) as int),
        recv: site_receiver(cfg, b),
        dest_place: site_dest(cfg, b).0,
        dest_block: site_dest(cfg, b).1,
    }
}

spec fn site_info_ok(reg: TypeRegistry, cfg: Cfg, s: SiteInfo) -> bool {
    &&& qualifying(reg, cfg, s.block as int)
    &&& s == spec_site_info(reg, cfg, s.block as int)
}

/// The rewritten form of a qualifying site block: the original statements
/// plus the borrow of the receiver into the fresh reference temporary, and
/// the original call redirected through the synthesized block `n + k`.
pub open spec fn rewritten_site_block_ok(cfg: Cfg, n: int, l: int, b: int, k: int, blk: Block) -> bool {
    &&& blk.stmts@ == cfg.blocks@[b].stmts@.push(
        Statement {
            tag: cfg.blocks@[b].term.tag,
            kind: StmtKind::RefAssign {
                dest: (l + 2 * k + 1) as usize,
                src: site_receiver(cfg, b).local,
            },
        },
    )
    &&& blk.term.tag == cfg.blocks@[b].term.tag
    &&& match blk.term.kind {
        TerminatorKind::Call { callee, args, dest } => {
            &&& callee == site_callee(cfg, b)
            &&& args@ == site_args(cfg, b)
            &&& dest == Option::Some((site_dest(cfg, b).0, (n + k) as usize))
        },
        _ => false,
    }
}

/// The synthesized block for site `k` of block `b`: no statements, and a
/// single call of the bound validator on the reference temporary, landing
/// its unit result in the fresh unit temporary and continuing to the
/// original call's destination block.
pub open spec fn synth_block_ok(reg: TypeRegistry, cfg: Cfg, n: int, l: int, b: int, k: int, blk: Block) -> bool {
    &&& blk.stmts@.len() == 0
    &&& blk.term.tag == SafetyTag::Safe
    &&& match blk.term.kind {
        TerminatorKind::Call { callee, args, dest } => {
            &&& callee == CalleeInfo {
                fn_id: resolved_validator(reg, site_ty(cfg, b) as int),
                impl_ty: Option::None,
                trait_unsafe: Option::None,
                sig_unsafe: false,
            }
            &&& args@ == seq![Operand::Copy(Place { local: (l + 2 * k + 1) as usize })]
            &&& dest == Option::Some((Place { local: (l + 2 * k) as usize }, site_dest(cfg, b).1))
        },
        _ => false,
    }
}

/// The fresh temporaries for the first `k` sites stand at the end of the
/// locals table: a unit temporary and a receiver-reference temporary per
/// site.
spec fn locals_extended(l: int, sites: Seq<SiteInfo>, locals: Seq<Option<usize>>, k: int) -> bool
    decreases k,
{
    k <= 0 || (locals_extended(l, sites, locals, k - 1) && locals[l + 2 * (k - 1)]
        == Option::None::<usize> && locals[l + 2 * (k - 1) + 1] == Option::Some(sites[k - 1].ty))
}

/// Appending entries does not disturb the temporaries already recorded.
proof fn lemma_locals_extended_push(
    l: int,
    sites: Seq<SiteInfo>,
    s: Seq<Option<usize>>,
    s2: Seq<Option<usize>>,
    k: int,
)
    requires
        locals_extended(l, sites, s, k),
        l >= 0,
        s.len() >= l + 2 * k,
        s2.len() >= s.len(),
        forall|x: int| 0 <= x < s.len() ==> s2[x] == s[x],
    ensures
        locals_extended(l, sites, s2, k),
    decreases k,
{
    if k > 0 {
        lemma_locals_extended_push(l, sites, s, s2, k - 1);
    }
}

/// Reads back the temporaries recorded for site `m`.
proof fn lemma_locals_extended_index(
    l: int,
    sites: Seq<SiteInfo>,
    s: Seq<Option<usize>>,
    k: int,
    m: int,
)
    requires
        locals_extended(l, sites, s, k),
        0 <= m < k,
    ensures
        s[l + 2 * m] == Option::None::<usize>,
        s[l + 2 * m + 1] == Option::Some(sites[m].ty),
    decreases k,
{
    if m < k - 1 {
        lemma_locals_extended_index(l, sites, s, k - 1, m);
    }
}

/// Annotation `k` is fully applied in the rewritten graph `r`.
pub open spec fn ann_applied(
    reg: TypeRegistry,
    cfg: Cfg,
    r: Cfg,
    anns: Seq<SiteAnnotation>,
    k: int,
) -> bool {
    let n = cfg.n_blocks();
    let l = cfg.locals@.len() as int;
    let a = anns[k];
    let b = a.site as int;
    &&& qualifying(reg, cfg, b)
    &&& a.validator == resolved_validator(reg, site_ty(cfg, b) as int)
    &&& a.new_block == n + k
    &&& a.type_region_tag == spec_type_region_tag(reg, site_ty(cfg, b) as int)
    &&& r.locals@[l + 2 * k] == Option::None::<usize>
    &&& r.locals@[l + 2 * k + 1] == Option::Some(site_ty(cfg, b))
    &&& rewritten_site_block_ok(cfg, n, l, b, k, r.blocks@[b])
    &&& synth_block_ok(reg, cfg, n, l, b, k, r.blocks@[n + k])
}

/// The rewritten graph `r` with annotations `anns` is the input graph with
/// a validator call inserted ahead of every qualifying call site: the
/// annotations list the qualifying sites in ascending order, each site's
/// destination edge is routed through its synthesized validator block, two
/// fresh temporaries per site extend the locals, and everything else is
/// unchanged.
pub open spec fn validator_rewrite(
    reg: TypeRegistry,
    cfg: Cfg,
    r: Cfg,
    anns: Seq<SiteAnnotation>,
) -> bool {
    let n = cfg.n_blocks();
    let l = cfg.locals@.len() as int;
    &&& r.n_blocks() == n + anns.len()
    &&& r.locals@.len() == l + 2 * anns.len()
    &&& forall|x: int| 0 <= x < l ==> r.locals@[x] == cfg.locals@[x]
    &&& forall|k1: int, k2: int|
        0 <= k1 < k2 < anns.len() ==> (#[trigger] anns[k1]).site < (#[trigger] anns[k2]).site
    &&& forall|b: int|
        0 <= b < n ==> (qualifying(reg, cfg, b) <==> exists|k: int|
            0 <= k < anns.len() && (#[trigger] anns[k]).site == b)
    &&& forall|k: int| 0 <= k < anns.len() ==> #[trigger] ann_applied(reg, cfg, r, anns, k)
    &&& forall|b: int|
        0 <= b < n && !qualifying(reg, cfg, b) ==> block_like(#[trigger] r.blocks@[b], cfg.blocks@[b])
}

/// Scans the graph in block order, checking validator configuration and
/// collecting every qualifying call site, or stops at the first
/// configuration error.
fn collect_sites(reg: &TypeRegistry, cfg: &Cfg) -> (r: Result<Vec<SiteInfo>, PassError>)
    requires
        reg.wf(),
        compat(*reg, *cfg),
        forall|b: int| almost_qualifying(*reg, *cfg, b) ==> qualifying(*reg, *cfg, b),
    ensures
        match r {
            Result::Ok(sites) => {
                &&& !has_config_error(*reg, *cfg)
                &&& forall|m: int|
                    0 <= m < sites@.len() ==> site_info_ok(*reg, *cfg, #[trigger] sites@[m])
                &&& forall|m1: int, m2: int|
                    0 <= m1 < m2 < sites@.len() ==> (#[trigger] sites@[m1]).block < (
                    #[trigger] sites@[m2]).block
                &&& forall|b: int|
                    0 <= b < cfg.n_blocks() ==> (qualifying(*reg, *cfg, b) <==> exists|m: int|
                        0 <= m < sites@.len() && (#[trigger] sites@[m]).block == b)
            },
            Result::Err(e) => exists|b: int|
                0 <= b < cfg.n_blocks() && #[trigger] block_config_error(*reg, *cfg, b)
                    == Option::Some(e) && !config_error_before(*reg, *cfg, b),
        },
{
    let n = cfg.blocks.len();
    let mut sites: Vec<SiteInfo> = Vec::new();
    let mut b: usize = 0;
    while b < n
        invariant
            reg.wf(),
            compat(*reg, *cfg),
            forall|x: int| almost_qualifying(*reg, *cfg, x) ==> qualifying(*reg, *cfg, x),
            n == cfg.n_blocks(),
            b <= n,
            !config_error_before(*reg, *cfg, b as int),
            forall|m: int| 0 <= m < sites@.len() ==> site_info_ok(*reg, *cfg, #[trigger] sites@[m]),
            forall|m: int| 0 <= m < sites@.len() ==> (#[trigger] sites@[m]).block < b,
            forall|m1: int, m2: int|
                0 <= m1 < m2 < sites@.len() ==> (#[trigger] sites@[m1]).block < (
                #[trigger] sites@[m2]).block,
            forall|x: int|
                0 <= x < b ==> (qualifying(*reg, *cfg, x) <==> exists|m: int|
                    0 <= m < sites@.len() && (#[trigger] sites@[m]).block == x),
        decreases n - b,
    {
        let ghost old_sites = sites@;
        let mut found_site = false;
        match &cfg.blocks[b].term.kind {
            TerminatorKind::Call { callee, args, dest } => {
                match callee.impl_ty {
                    Option::Some(t) => {
                        proof {
                            assert(cfg.blocks@[b as int].term.kind matches TerminatorKind::Call {
                                ..
                            });
                        }
                        match calculate_validator(reg, t) {
                            Result::Err(e) => {
                                proof {
                                    assert(block_config_error(*reg, *cfg, b as int)
                                        == Option::Some(e));
                                }
                                return Result::Err(e);
                            },
                            Result::Ok(Option::None) => {
                                if reg.types[t].is_smart_pointer {
                                    proof {
                                        assert(block_config_error(*reg, *cfg, b as int)
                                            == Option::Some(
                                            PassError::NoValidatorForProtectedType,
                                        ));
                                    }
                                    return Result::Err(PassError::NoValidatorForProtectedType);
                                }
                            },
                            Result::Ok(Option::Some(v)) => {
                                let cap_unsafe = match callee.trait_unsafe {
                                    Option::Some(u) => u,
                                    Option::None => callee.sig_unsafe,
                                };
                                if cap_unsafe && args.len() > 0 {
                                    let a0 = args[0];
                                    match a0 {
                                        Operand::Copy(p) => {
                                            let recv_matches = if p.local < cfg.locals.len() {
                                                match cfg.locals[p.local] {
                                                    Option::Some(x) => x == t,
                                                    Option::None => false,
                                                }
                                            } else {
                                                false
                                            };
                                            if recv_matches {
                                                match dest {
                                                    Option::Some(d) => {
                                                        let tag = type_region_tag(reg, t);
                                                        let s = SiteInfo {
                                                            block: b,
                                                            ty: t,
                                                            validator: v,
                                                            tag,
                                                            recv: p,
                                                            dest_place: d.0,
                                                            dest_block: d.1,
                                                        };
                                                        proof {
                                                            assert(qualifying(*reg, *cfg, b as int));
                                                            assert(site_ty(*cfg, b as int) == t);
                                                            assert(site_receiver(*cfg, b as int)
                                                                == p);
                                                            assert(site_dest(*cfg, b as int)
                                                                == (d.0, d.1));
                                                            assert(site_info_ok(*reg, *cfg, s));
                                                        }
                                                        sites.push(s);
                                                        found_site = true;
                                                    },
                                                    Option::None => {
                                                        proof {
                                                            assert(almost_qualifying(
                                                                *reg,
                                                                *cfg,
                                                                b as int,
                                                            ));
                                                            assert(false);
                                                        }
                                                    },
                                                }
                                            }
                                        },
                                        _ => {},
                                    }
                                }
                            },
                        }
                    },
                    Option::None => {},
                }
            },
            TerminatorKind::Other { .. } => {},
        }
        proof {
            assert(block_config_error(*reg, *cfg, b as int) is None);
            assert(!config_error_before(*reg, *cfg, b as int + 1)) by {
                if config_error_before(*reg, *cfg, b as int + 1) {
                    let x = choose|x: int|
                        0 <= x < b as int + 1 && (#[trigger] block_config_error(
                            *reg,
                            *cfg,
                            x,
                        )) is Some;
                    assert(x == b as int);
                }
            }
            if !found_site {
                assert(!qualifying(*reg, *cfg, b as int));
            }
            assert forall|x: int| 0 <= x < b as int + 1 implies (qualifying(*reg, *cfg, x)
                <==> exists|m: int|
                0 <= m < sites@.len() && (#[trigger] sites@[m]).block == x) by {
                if x < b as int {
                    if qualifying(*reg, *cfg, x) {
                        let m = choose|m: int|
                            0 <= m < old_sites.len() && (#[trigger] old_sites[m]).block == x;
                        assert(sites@[m].block == x);
                    } else {
                        if exists|m: int|
                            0 <= m < sites@.len() && (#[trigger] sites@[m]).block == x {
                            let m = choose|m: int|
                                0 <= m < sites@.len() && (#[trigger] sites@[m]).block == x;
                            assert(m < old_sites.len());
                        }
                    }
                } else {
                    if found_site {
                        assert(sites@[sites@.len() - 1].block == x);
                    } else {
                        if exists|m: int|
                            0 <= m < sites@.len() && (#[trigger] sites@[m]).block == x {
                            let m = choose|m: int|
                                0 <= m < sites@.len() && (#[trigger] sites@[m]).block == x;
                            assert(m < old_sites.len());
                            assert(old_sites[m].block < b as int);
                        }
                    }
                }
            }
        }
        b += 1;
    }
    Result::Ok(sites)
}

/// In a strictly ascending list of block indices, each entry is at least
/// as large as its position.
proof fn lemma_sites_ascending(sites: Seq<SiteInfo>, m: int)
    requires
        forall|m1: int, m2: int|
            0 <= m1 < m2 < sites.len() ==> (#[trigger] sites[m1]).block < (
            #[trigger] sites[m2]).block,
        0 <= m < sites.len(),
    ensures
        sites[m].block >= m,
    decreases m,
{
    if m > 0 {
        lemma_sites_ascending(sites, m - 1);
    }
}

/// A strictly ascending list of block indices below `n` holds at most `n`
/// entries.
proof fn lemma_sites_bounded(sites: Seq<SiteInfo>, n: int)
    requires
        n >= 0,
        forall|m1: int, m2: int|
            0 <= m1 < m2 < sites.len() ==> (#[trigger] sites[m1]).block < (
            #[trigger] sites[m2]).block,
        forall|x: int| 0 <= x < sites.len() ==> (#[trigger] sites[x]).block < n,
    ensures
        sites.len() <= n,
{
    if sites.len() > 0 {
        lemma_sites_ascending(sites, sites.len() - 1);
        assert(sites[sites.len() - 1].block < n);
    }
}

/// Builds the rewritten graph and the per-site annotations from the
/// collected qualifying sites.
fn apply_validators(reg: &TypeRegistry, cfg: &Cfg, sites: &Vec<SiteInfo>) -> (r: (
    Cfg,
    Vec<SiteAnnotation>,
))
    requires
        reg.wf(),
        cfg.locals@.len() + 2 * cfg.n_blocks() <= usize::MAX,
        cfg.n_blocks() + cfg.n_blocks() <= usize::MAX,
        forall|m: int| 0 <= m < sites@.len() ==> site_info_ok(*reg, *cfg, #[trigger] sites@[m]),
        forall|m1: int, m2: int|
            0 <= m1 < m2 < sites@.len() ==> (#[trigger] sites@[m1]).block < (
            #[trigger] sites@[m2]).block,
        forall|b: int|
            0 <= b < cfg.n_blocks() ==> (qualifying(*reg, *cfg, b) <==> exists|m: int|
                0 <= m < sites@.len() && (#[trigger] sites@[m]).block == b),
    ensures
        validator_rewrite(*reg, *cfg, r.0, r.1@),
        r.1@.len() == sites@.len(),
{
    let n = cfg.blocks.len();
    let l = cfg.locals.len();
    proof {
        assert forall|m: int| 0 <= m < sites@.len() implies (#[trigger] sites@[m]).block
            < cfg.n_blocks() by {
            assert(qualifying(*reg, *cfg, sites@[m].block as int));
        }
        lemma_sites_bounded(sites@, cfg.n_blocks());
    }
    let mut blocks: Vec<Block> = Vec::new();
    let mut cursor: usize = 0;
    while blocks.len() < n
        invariant
            reg.wf(),
            n == cfg.n_blocks(),
            l == cfg.locals@.len(),
            l + 2 * n <= usize::MAX,
            n + n <= usize::MAX,
            sites@.len() <= n,
            forall|m: int| 0 <= m < sites@.len() ==> site_info_ok(*reg, *cfg, #[trigger] sites@[m]),
            forall|m1: int, m2: int|
                0 <= m1 < m2 < sites@.len() ==> (#[trigger] sites@[m1]).block < (
                #[trigger] sites@[m2]).block,
            forall|b: int|
                0 <= b < cfg.n_blocks() ==> (qualifying(*reg, *cfg, b) <==> exists|m: int|
                    0 <= m < sites@.len() && (#[trigger] sites@[m]).block == b),
            blocks@.len() <= n,
            cursor <= sites@.len(),
            forall|m: int| 0 <= m < cursor ==> (#[trigger] sites@[m]).block < blocks@.len(),
            forall|m: int|
                cursor <= m < sites@.len() ==> (#[trigger] sites@[m]).block >= blocks@.len(),
            forall|b: int|
                0 <= b < blocks@.len() && !qualifying(*reg, *cfg, b) ==> block_like(
                    #[trigger] blocks@[b],
                    cfg.blocks@[b],
                ),
            forall|m: int|
                0 <= m < cursor ==> rewritten_site_block_ok(
                    *cfg,
                    n as int,
                    l as int,
                    (#[trigger] sites@[m]).block as int,
                    m,
                    blocks@[sites@[m].block as int],
                ),
        decreases n - blocks@.len(),
    {
        let b = blocks.len();
        let is_site = cursor < sites.len() && sites[cursor].block == b;
        if is_site {
            let s = sites[cursor];
            proof {
                assert(site_info_ok(*reg, *cfg, s));
                assert(qualifying(*reg, *cfg, b as int));
            }
            let mut stmts = copy_stmts(&cfg.blocks[b].stmts);
            let ref_local = l + 2 * cursor + 1;
            stmts.push(
                Statement {
                    tag: cfg.blocks[b].term.tag,
                    kind: StmtKind::RefAssign { dest: ref_local, src: s.recv.local },
                },
            );
            let term = match &cfg.blocks[b].term.kind {
                TerminatorKind::Call { callee, args, dest: _ } => {
                    let mut args2: Vec<Operand> = Vec::new();
                    let mut j: usize = 0;
                    while j < args.len()
                        invariant
                            j <= args@.len(),
                            args2@ == args@.take(j as int),
                        decreases args@.len() - j,
                    {
                        args2.push(args[j]);
                        proof {
                            assert(args@.take(j as int + 1) =~= args@.take(j as int).push(
                                args@[j as int],
                            ));
                        }
                        j += 1;
                    }
                    proof {
                        assert(args@.take(args@.len() as int) =~= args@);
                    }
                    Terminator {
                        tag: cfg.blocks[b].term.tag,
                        kind: TerminatorKind::Call {
                            callee: *callee,
                            args: args2,
                            dest: Option::Some((s.dest_place, n + cursor)),
                        },
                    }
                },
                TerminatorKind::Other { .. } => {
                    proof {
                        assert(false);
                    }
                    copy_terminator(&cfg.blocks[b].term)
                },
            };
            blocks.push(Block { stmts, term });
            cursor += 1;
            proof {
                assert(rewritten_site_block_ok(
                    *cfg,
                    n as int,
                    l as int,
                    b as int,
                    cursor as int - 1,
                    blocks@[b as int],
                ));
                assert forall|m: int| 0 <= m < cursor implies rewritten_site_block_ok(
                    *cfg,
                    n as int,
                    l as int,
                    (#[trigger] sites@[m]).block as int,
                    m,
                    blocks@[sites@[m].block as int],
                ) by {
                    if m < cursor - 1 {
                        assert(sites@[m].block < b);
                        assert(blocks@[sites@[m].block as int] == blocks@.drop_last()[sites@[m].block as int]);
                    }
                }
            }
        } else {
            let nb = copy_block(&cfg.blocks[b]);
            blocks.push(nb);
            proof {
                assert(!qualifying(*reg, *cfg, b as int)) by {
                    if qualifying(*reg, *cfg, b as int) {
                        let m = choose|m: int|
                            0 <= m < sites@.len() && (#[trigger] sites@[m]).block == b as int;
                        assert(m >= cursor);
                        if m > cursor {
                            assert(sites@[cursor as int].block < sites@[m].block);
                        }
                    }
                }
                assert forall|m: int| 0 <= m < cursor implies rewritten_site_block_ok(
                    *cfg,
                    n as int,
                    l as int,
                    (#[trigger] sites@[m]).block as int,
                    m,
                    blocks@[sites@[m].block as int],
                ) by {
                    assert(sites@[m].block < b);
                    assert(blocks@[sites@[m].block as int] == blocks@.drop_last()[sites@[m].block as int]);
                }
            }
        }
    }
    let mut k: usize = 0;
    while k < sites.len()
        invariant
            reg.wf(),
            n == cfg.n_blocks(),
            l == cfg.locals@.len(),
            l + 2 * n <= usize::MAX,
            n + n <= usize::MAX,
            sites@.len() <= n,
            forall|m: int| 0 <= m < sites@.len() ==> site_info_ok(*reg, *cfg, #[trigger] sites@[m]),
            k <= sites@.len(),
            blocks@.len() == n + k,
            forall|b: int|
                0 <= b < n && !qualifying(*reg, *cfg, b) ==> block_like(
                    #[trigger] blocks@[b],
                    cfg.blocks@[b],
                ),
            forall|m: int|
                0 <= m < sites@.len() ==> rewritten_site_block_ok(
                    *cfg,
                    n as int,
                    l as int,
                    (#[trigger] sites@[m]).block as int,
                    m,
                    blocks@[sites@[m].block as int],
                ),
            forall|m: int|
                0 <= m < k ==> synth_block_ok(
                    *reg,
                    *cfg,
                    n as int,
                    l as int,
                    (#[trigger] sites@[m]).block as int,
                    m,
                    blocks@[n + m],
                ),
        decreases sites@.len() - k,
    {
        let s = sites[k];
        proof {
            assert(site_info_ok(*reg, *cfg, s));
        }
        let unit_local = l + 2 * k;
        let ref_local = l + 2 * k + 1;
        let mut args: Vec<Operand> = Vec::new();
        args.push(Operand::Copy(Place { local: ref_local }));
        let term = Terminator {
            tag: SafetyTag::Safe,
            kind: TerminatorKind::Call {
                callee: CalleeInfo {
                    fn_id: s.validator,
                    impl_ty: Option::None,
                    trait_unsafe: Option::None,
                    sig_unsafe: false,
                },
                args,
                dest: Option::Some((Place { local: unit_local }, s.dest_block)),
            },
        };
        blocks.push(Block { stmts: Vec::new(), term });
        proof {
            assert(args@ =~= seq![Operand::Copy(Place { local: ((l + 2 * k + 1) as int) as usize })]);
            assert(synth_block_ok(
                *reg,
                *cfg,
                n as int,
                l as int,
                s.block as int,
                k as int,
                blocks@[n + k as int],
            ));
        }
        k += 1;
    }
    let mut locals = copy_locals(&cfg.locals);
    let mut k2: usize = 0;
    while k2 < sites.len()
        invariant
            l == cfg.locals@.len(),
            l + 2 * n <= usize::MAX,
            sites@.len() <= n,
            n == cfg.n_blocks(),
            forall|m: int| 0 <= m < sites@.len() ==> site_info_ok(*reg, *cfg, #[trigger] sites@[m]),
            k2 <= sites@.len(),
            locals@.len() == l + 2 * k2,
            forall|x: int| 0 <= x < l ==> locals@[x] == cfg.locals@[x],
            locals_extended(l as int, sites@, locals@, k2 as int),
        decreases sites@.len() - k2,
    {
        let ghost pre_push = locals@;
        locals.push(Option::None);
        locals.push(Option::Some(sites[k2].ty));
        proof {
            assert(pre_push.len() == l as int + 2 * (k2 as int));
            assert(locals@[l as int + 2 * (k2 as int)] == Option::None::<usize>);
            assert(locals@[l as int + 2 * (k2 as int) + 1] == Option::Some(sites@[k2 as int].ty));
            lemma_locals_extended_push(
                l as int,
                sites@,
                pre_push,
                locals@,
                k2 as int,
            );
            assert(locals_extended(l as int, sites@, locals@, k2 as int + 1));
        }
        k2 += 1;
    }
    let mut anns: Vec<SiteAnnotation> = Vec::new();
    let mut k3: usize = 0;
    while k3 < sites.len()
        invariant
            sites@.len() <= n,
            n == cfg.n_blocks(),
            n + n <= usize::MAX,
            forall|m: int| 0 <= m < sites@.len() ==> site_info_ok(*reg, *cfg, #[trigger] sites@[m]),
            k3 <= sites@.len(),
            anns@.len() == k3,
            forall|m: int|
                0 <= m < k3 ==> (#[trigger] anns@[m]) == (SiteAnnotation {
                    site: sites@[m].block,
                    validator: sites@[m].validator,
                    new_block: (n + m) as usize,
                    type_region_tag: sites@[m].tag,
                }),
        decreases sites@.len() - k3,
    {
        let s = sites[k3];
        anns.push(
            SiteAnnotation {
                site: s.block,
                validator: s.validator,
                new_block: n + k3,
                type_region_tag: s.tag,
            },
        );
        k3 += 1;
    }
    let r = Cfg { locals, blocks };
    proof {
        assert forall|kk: int| 0 <= kk < anns@.len() implies #[trigger] ann_applied(
            *reg,
            *cfg,
            r,
            anns@,
            kk,
        ) by {
            assert(site_info_ok(*reg, *cfg, sites@[kk]));
            assert(anns@[kk].site == sites@[kk].block);
            lemma_locals_extended_index(l as int, sites@, r.locals@, sites@.len() as int, kk);
            assert(rewritten_site_block_ok(
                *cfg,
                n as int,
                l as int,
                sites@[kk].block as int,
                kk,
                r.blocks@[sites@[kk].block as int],
            ));
            assert(synth_block_ok(
                *reg,
                *cfg,
                n as int,
                l as int,
                sites@[kk].block as int,
                kk,
                r.blocks@[n + kk],
            ));
        }
        assert forall|b: int| 0 <= b < n implies (qualifying(*reg, *cfg, b) <==> exists|kk: int|
            0 <= kk < anns@.len() && (#[trigger] anns@[kk]).site == b) by {
            if qualifying(*reg, *cfg, b) {
                let m = choose|m: int|
                    0 <= m < sites@.len() && (#[trigger] sites@[m]).block == b;
                assert(anns@[m].site == b);
            } else {
                if exists|kk: int| 0 <= kk < anns@.len() && (#[trigger] anns@[kk]).site == b {
                    let kk = choose|kk: int|
                        0 <= kk < anns@.len() && (#[trigger] anns@[kk]).site == b;
                    assert(sites@[kk].block == b);
                }
            }
        }
    }
    (r, anns)
}

/// The validator-insertion pass.
pub struct MetaSafeAddValidators;

impl MetaSafeAddValidators {
    /// Runs the pass over one function body.
    ///
    /// When the context makes the pass applicable, the result is either the
    /// first configuration error found in block order — a fatal,
    /// build-stopping condition — or the rewritten graph together with one
    /// annotation per rewritten call site.  Otherwise the pass is a no-op
    /// and the graph comes back unchanged.
    pub fn run_pass(&self, ctx: &PassContext, reg: &TypeRegistry, cfg: &Cfg) -> (r: Result<
        (Cfg, Vec<SiteAnnotation>),
        PassError,
    >)
        requires
            reg.wf(),
            compat(*reg, *cfg),
            forall|b: int| almost_qualifying(*reg, *cfg, b) ==> qualifying(*reg, *cfg, b),
            cfg.locals@.len() + 2 * cfg.n_blocks() <= usize::MAX,
            cfg.n_blocks() + cfg.n_blocks() <= usize::MAX,
        ensures
            !ctx.validators_applicable() ==> match r {
                Result::Ok(p) => cfg_like(p.0, *cfg) && p.1@.len() == 0,
                Result::Err(_) => false,
            },
            ctx.validators_applicable() ==> match r {
                Result::Ok(p) => !has_config_error(*reg, *cfg) && validator_rewrite(
                    *reg,
                    *cfg,
                    p.0,
                    p.1@,
                ),
                Result::Err(e) => exists|b: int|
                    0 <= b < cfg.n_blocks() && #[trigger] block_config_error(*reg, *cfg, b)
                        == Option::Some(e) && !config_error_before(*reg, *cfg, b),
            },
    {
        if !ctx.check_validators_applicable() {
            return Result::Ok((copy_cfg(cfg), Vec::new()));
        }
        match collect_sites(reg, cfg) {
            Result::Err(e) => Result::Err(e),
            Result::Ok(sites) => {
                let (rewritten, anns) = apply_validators(reg, cfg, &sites);
                Result::Ok((rewritten, anns))
            },
        }
    }
}

/// Validator insertion preserves the rewritten call's semantics: the site
/// block still performs the original call, on the original arguments, and
/// writes its result to the original destination place; control then flows
/// through the synthesized block, whose only effect is one call of the
/// bound validator on a shared reference to the receiver, and continues
/// unconditionally to the original destination block.
pub proof fn lemma_validator_insertion_preserves_semantics(
    reg: TypeRegistry,
    cfg: Cfg,
    r: Cfg,
    anns: Seq<SiteAnnotation>,
    k: int,
)
    requires
        validator_rewrite(reg, cfg, r, anns),
        0 <= k < anns.len(),
    ensures
        r.blocks@[anns[k].site as int].term.successors() =~= seq![anns[k].new_block],
        r.blocks@[anns[k].new_block as int].term.successors() =~= seq![
            site_dest(cfg, anns[k].site as int).1,
        ],
        match r.blocks@[anns[k].site as int].term.kind {
            TerminatorKind::Call { callee, args, dest } => {
                &&& callee == site_callee(cfg, anns[k].site as int)
                &&& args@ == site_args(cfg, anns[k].site as int)
                &&& dest matches Option::Some(d) && d.0 == site_dest(cfg, anns[k].site as int).0
            },
            _ => false,
        },
        match r.blocks@[anns[k].new_block as int].term.kind {
            TerminatorKind::Call { callee, args, dest: _ } => {
                &&& callee.fn_id == resolved_validator(reg, site_ty(cfg, anns[k].site as int) as int)
                &&& args@ == seq![
                    Operand::Copy(
                        Place { local: (cfg.locals@.len() + 2 * k + 1) as usize },
                    ),
                ]
            },
            _ => false,
        },
        r.blocks@[anns[k].new_block as int].stmts@.len() == 0,
{
    assert(ann_applied(reg, cfg, r, anns, k));
    let b = anns[k].site as int;
    let nb = anns[k].new_block as int;
    assert(rewritten_site_block_ok(cfg, cfg.n_blocks(), cfg.locals@.len() as int, b, k, r.blocks@[b]));
    assert(synth_block_ok(reg, cfg, cfg.n_blocks(), cfg.locals@.len() as int, b, k, r.blocks@[nb]));
}

} // verus!
