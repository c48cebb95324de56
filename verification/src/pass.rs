//! Configuration shared by the two instrumentation passes: whether
//! instrumentation is enabled for this build, where the body under rewrite
//! comes from, and the fixed set of foundational crates that are exempt
//! from instrumentation.

use vstd::prelude::*;

verus! {

/// Whether a crate name belongs to the fixed exclusion set of foundational
/// crates.  Bodies from these crates are never instrumented: they form the
/// trusted base the isolation boundary is built on.
pub open spec fn is_exempt_name(name: Seq<char>) -> bool {
    ||| name == "std"@
    ||| name == "alloc"@
    ||| name == "backtrace"@
    ||| name == "core"@
    ||| name == "panic_abort"@
    ||| name == "panic_unwind"@
    ||| name == "portable-simd"@
    ||| name == "proc_macro"@
    ||| name == "profiler_builtins"@
    ||| name == "sysroot"@
    ||| name == "rustc"@
    ||| name == "stdarch"@
    ||| name == "rtstartup"@
    ||| name == "rustc_std_workspace_alloc"@
    ||| name == "rustc_std_workspace_core"@
    ||| name == "rustc_std_workspace_std"@
    ||| name == "std_detect"@
    ||| name == "hash_brown"@
    ||| name == "libc"@
    ||| name == "cfg_if"@
    ||| name == "unwind"@
    ||| name == "object"@
    ||| name == "adler"@
}

/// Compares a crate name against one entry of the exclusion set.
fn name_eq(name: &String, lit: &str) -> (r: bool)
    ensures
        r == (name@ == lit@),
{
    let owned: String = lit.to_owned();
    *name == owned
}

/// Decides membership of `name` in the exclusion set of foundational crates.
pub fn is_exempt_crate(name: &String) -> (r: bool)
    ensures
        r == is_exempt_name(name@),
{
    name_eq(name, "std") || name_eq(name, "alloc") || name_eq(name, "backtrace") || name_eq(
        name,
        "core",
    ) || name_eq(name, "panic_abort") || name_eq(name, "panic_unwind") || name_eq(
        name,
        "portable-simd",
    ) || name_eq(name, "proc_macro") || name_eq(name, "profiler_builtins") || name_eq(
        name,
        "sysroot",
    ) || name_eq(name, "rustc") || name_eq(name, "stdarch") || name_eq(name, "rtstartup")
        || name_eq(name, "rustc_std_workspace_alloc") || name_eq(name, "rustc_std_workspace_core")
        || name_eq(name, "rustc_std_workspace_std") || name_eq(name, "std_detect") || name_eq(
        name,
        "hash_brown",
    ) || name_eq(name, "libc") || name_eq(name, "cfg_if") || name_eq(name, "unwind") || name_eq(
        name,
        "object",
    ) || name_eq(name, "adler")
}

/// Build/session configuration handed to a pass together with the identity
/// of the function body it runs over.
pub struct PassContext {
    /// Whether the isolation instrumentation is enabled for this build.
    pub instrumentation_enabled: bool,
    /// Whether the body under rewrite comes from the crate being compiled;
    /// safety scope information is unavailable for foreign bodies.
    pub body_is_local: bool,
    /// Name of the crate the body belongs to.
    pub crate_name: String,
}

impl PassContext {
    /// The region-marker pass instruments a body exactly when
    /// instrumentation is on, the body is local, and its crate is not
    /// exempt; otherwise the pass is a no-op for that body.
    pub open spec fn markers_applicable(self) -> bool {
        self.instrumentation_enabled && self.body_is_local && !is_exempt_name(self.crate_name@)
    }

    /// The validator-insertion pass instruments a body exactly when
    /// instrumentation is on and the body's crate is not exempt.
    pub open spec fn validators_applicable(self) -> bool {
        self.instrumentation_enabled && !is_exempt_name(self.crate_name@)
    }

    pub fn check_markers_applicable(&self) -> (r: bool)
        ensures
            r == self.markers_applicable(),
    {
        self.instrumentation_enabled && self.body_is_local && !is_exempt_crate(&self.crate_name)
    }

    pub fn check_validators_applicable(&self) -> (r: bool)
        ensures
            r == self.validators_applicable(),
    {
        self.instrumentation_enabled && !is_exempt_crate(&self.crate_name)
    }
}

} // verus!
