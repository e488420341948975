//! Encoding address spaces for the EL1 translation-table base registers.

use aarch64_cpu::registers::{TTBR0_EL1, TTBR1_EL1};
use crate::addr::PhysAddr;
use crate::error::{PagingError, PagingResult};
use crate::meta::PageSize;
use crate::paging::AddrSpaceToken;
use vstd::prelude::*;

verus! {

/// A TTBR value: identifier in bits 63:48, base address without its lowest bit
/// in bits 47:1, and the common-not-private bit 0.
pub open spec fn ttbr_word(asid: u64, baddr: u64, cnp: u64) -> u64 {
    ((asid & 0xffff) << 48) | ((baddr & 0x7fff_ffff_ffff) << 1) | (cnp & 1)
}

/// The value of `TTBR0_EL1`'s `ASID`, `BADDR` and `CnP` fields, added together
/// as `aarch64_cpu` does: each value is cut to its field and shifted there.
#[verifier::external_body]
fn ttbr0_value(asid: u64, baddr: u64, cnp: u64) -> (r: u64)
    ensures
        r == ttbr_word(asid, baddr, cnp),
{
    (TTBR0_EL1::ASID.val(asid) + TTBR0_EL1::BADDR.val(baddr) + TTBR0_EL1::CnP.val(cnp)).value
}

/// The value of `TTBR1_EL1`'s `ASID`, `BADDR` and `CnP` fields, added together
/// as `aarch64_cpu` does: each value is cut to its field and shifted there.
#[verifier::external_body]
fn ttbr1_value(asid: u64, baddr: u64, cnp: u64) -> (r: u64)
    ensures
        r == ttbr_word(asid, baddr, cnp),
{
    (TTBR1_EL1::ASID.val(asid) + TTBR1_EL1::BADDR.val(baddr) + TTBR1_EL1::CnP.val(cnp)).value
}

/// Reading `TTBR0_EL1::BADDR` from a value: bits 47:1.
#[verifier::external_body]
fn ttbr0_baddr(value: u64) -> (r: u64)
    ensures
        r == (value & 0xffff_ffff_fffe) >> 1,
{
    TTBR0_EL1::BADDR.read(value)
}

/// Reading `TTBR0_EL1::ASID` from a value: bits 63:48.
#[verifier::external_body]
fn ttbr0_asid(value: u64) -> (r: u64)
    ensures
        r == value >> 48,
{
    TTBR0_EL1::ASID.read(value)
}

/// Reading `TTBR1_EL1::ASID` from a value: bits 63:48.
#[verifier::external_body]
fn ttbr1_asid(value: u64) -> (r: u64)
    ensures
        r == value >> 48,
{
    TTBR1_EL1::ASID.read(value)
}

/// Reading `TTBR0_EL1::CnP` from a value: bit 0.
#[verifier::external_body]
fn ttbr0_cnp(value: u64) -> (r: u64)
    ensures
        r == value & 1,
{
    TTBR0_EL1::CnP.read(value)
}

/// Reading `TTBR1_EL1::CnP` from a value: bit 0.
#[verifier::external_body]
fn ttbr1_cnp(value: u64) -> (r: u64)
    ensures
        r == value & 1,
{
    TTBR1_EL1::CnP.read(value)
}

/// AArch64 EL1 translation-table base register.
#[derive(Clone, Copy, Debug, PartialEq, Eq, Structural)]
pub enum A64Ttbr {
    Ttbr0El1,
    Ttbr1El1,
}

/// Common TTBR root encoding for EL1 stage-1 translation.
#[derive(Clone, Copy, Debug, PartialEq, Eq, Structural)]
pub struct A64TtbrConfig {
    pub register: A64Ttbr,
    pub asid: u16,
    pub common_not_private: bool,
}

impl A64TtbrConfig {
    pub fn new(register: A64Ttbr) -> (r: Self)
        ensures
            r == (A64TtbrConfig { register, asid: 0, common_not_private: false }),
    {
        A64TtbrConfig { register, asid: 0, common_not_private: false }
    }

    pub fn with_asid(self, asid: u16) -> (r: Self)
        ensures
            r == (A64TtbrConfig { asid, ..self }),
    {
        A64TtbrConfig { asid, ..self }
    }

    pub fn with_common_not_private(self, common_not_private: bool) -> (r: Self)
        ensures
            r == (A64TtbrConfig { common_not_private, ..self }),
    {
        A64TtbrConfig { common_not_private, ..self }
    }

    pub fn register(self) -> (r: A64Ttbr)
        ensures
            r == self.register,
    {
        self.register
    }

    pub fn asid(self) -> (r: u16)
        ensures
            r == self.asid,
    {
        self.asid
    }

    pub fn common_not_private(self) -> (r: bool)
        ensures
            r == self.common_not_private,
    {
        self.common_not_private
    }
}

/// AArch64 EL1 paging-control values to apply around a TTBR switch.
///
/// Activation writes MAIR_EL1 before TCR_EL1, then TTBRx_EL1, then SCTLR_EL1
/// to match the architectural translation-control sequencing.
#[derive(Clone, Copy, Debug, PartialEq, Eq)]
pub struct A64PagingControls {
    pub mair_el1: Option<u64>,
    pub tcr_el1: Option<u64>,
    pub ttbr: A64TtbrConfig,
    pub sctlr_el1: Option<u64>,
}

impl A64PagingControls {
    pub fn new(ttbr: A64TtbrConfig) -> (r: Self)
        ensures
            r == (A64PagingControls { mair_el1: None, tcr_el1: None, ttbr, sctlr_el1: None }),
    {
        A64PagingControls { mair_el1: None, tcr_el1: None, ttbr, sctlr_el1: None }
    }

    pub fn with_mair_el1(self, value: u64) -> (r: Self)
        ensures
            r == (A64PagingControls { mair_el1: Some(value), ..self }),
    {
        A64PagingControls { mair_el1: Some(value), ..self }
    }

    pub fn with_tcr_el1(self, value: u64) -> (r: Self)
        ensures
            r == (A64PagingControls { tcr_el1: Some(value), ..self }),
    {
        A64PagingControls { tcr_el1: Some(value), ..self }
    }

    pub fn with_sctlr_el1(self, value: u64) -> (r: Self)
        ensures
            r == (A64PagingControls { sctlr_el1: Some(value), ..self }),
    {
        A64PagingControls { sctlr_el1: Some(value), ..self }
    }

    pub fn mair_el1(self) -> (r: Option<u64>)
        ensures
            r == self.mair_el1,
    {
        self.mair_el1
    }

    pub fn tcr_el1(self) -> (r: Option<u64>)
        ensures
            r == self.tcr_el1,
    {
        self.tcr_el1
    }

    pub fn ttbr(self) -> (r: A64TtbrConfig)
        ensures
            r == self.ttbr,
    {
        self.ttbr
    }

    pub fn sctlr_el1(self) -> (r: Option<u64>)
        ensures
            r == self.sctlr_el1,
    {
        self.sctlr_el1
    }
}

/// Installed AArch64 address-space token.
#[derive(Clone, Copy, Debug, PartialEq, Eq)]
pub struct A64PagingToken {
    pub root: PhysAddr,
    pub controls: A64PagingControls,
    pub ttbr_value: u64,
}

impl A64PagingToken {
    pub fn root(self) -> (r: PhysAddr)
        ensures
            r == self.root,
    {
        self.root
    }

    pub fn controls(self) -> (r: A64PagingControls)
        ensures
            r == self.controls,
    {
        self.controls
    }

    pub fn ttbr_value(self) -> (r: u64)
        ensures
            r == self.ttbr_value,
    {
        self.ttbr_value
    }
}

impl AddrSpaceToken for A64PagingToken {
    open spec fn root_frame(self) -> PhysAddr {
        self.root
    }

    fn root(self) -> (r: PhysAddr) {
        self.root
    }
}

/// The TTBR value of a root frame.
pub open spec fn ttbr_encoding(root: PhysAddr, ttbr: A64TtbrConfig) -> PagingResult<u64> {
    if root.0 % 0x1000 != 0 {
        Err(PagingError::NotAligned)
    } else if root.0 >= 0x1_0000_0000_0000 {
        Err(PagingError::AddressOutOfRange)
    } else {
        Ok(
            ((ttbr.asid as u64) << 48) | root.0 | (if ttbr.common_not_private {
                1
            } else {
                0
            }),
        )
    }
}

/// The token of a root frame with controls.
pub open spec fn paging_token(root: PhysAddr, controls: A64PagingControls) -> PagingResult<
    A64PagingToken,
> {
    match ttbr_encoding(root, controls.ttbr) {
        Err(e) => Err(e),
        Ok(ttbr_value) => Ok(A64PagingToken { root, controls, ttbr_value }),
    }
}

/// The configuration that a TTBR value carries.
pub open spec fn observed_config(register: A64Ttbr, value: u64) -> A64TtbrConfig {
    A64TtbrConfig {
        register,
        asid: (value >> 48) as u16,
        common_not_private: value & 1 != 0,
    }
}

/// The root frame that a TTBR value names.
pub open spec fn observed_root(value: u64) -> PhysAddr {
    PhysAddr(value & 0xffff_ffff_fffe)
}

/// Encode a root frame for a TTBR.
pub fn encode_ttbr(root: PhysAddr, ttbr: A64TtbrConfig) -> (r: PagingResult<u64>)
    ensures
        r == ttbr_encoding(root, ttbr),
{
    if !PageSize::Size4K.is_aligned(root.as_u64()) {
        return Err(PagingError::NotAligned);
    }
    let base: u64 = root.as_u64();
    proof {
        assert((base & !0x0000_ffff_ffff_fffeu64 != 0) == (base >= 0x1_0000_0000_0000))
            by (bit_vector)
            requires
                base % 0x1000 == 0,
        ;
    }
    if base & !0x0000_ffff_ffff_fffeu64 != 0 {
        return Err(PagingError::AddressOutOfRange);
    }
    let asid: u64 = ttbr.asid() as u64;
    let cnp: u64 = if ttbr.common_not_private() {
        1
    } else {
        0
    };
    proof {
        assert(((asid & 0xffff) << 48) | (((base >> 1) & 0x7fff_ffff_ffff) << 1) | (cnp & 1) == (
        asid << 48) | base | cnp) by (bit_vector)
            requires
                asid <= 0xffff,
                cnp <= 1,
                base % 0x1000 == 0,
                base < 0x1_0000_0000_0000,
        ;
    }
    Ok(
        match ttbr.register() {
            A64Ttbr::Ttbr0El1 => ttbr0_value(asid, base >> 1, cnp),
            A64Ttbr::Ttbr1El1 => ttbr1_value(asid, base >> 1, cnp),
        },
    )
}

/// The base address that a TTBR value holds.
pub fn ttbr_root(value: u64) -> (r: u64)
    ensures
        r == observed_root(value).0,
{
    proof {
        assert(((value & 0xffff_ffff_fffe) >> 1) << 1 == value & 0xffff_ffff_fffe) by (bit_vector);
    }
    ttbr0_baddr(value) << 1
}

/// One step of activating an address space.
#[derive(Clone, Copy, Debug, PartialEq, Eq, Structural)]
pub enum A64ActivationStep {
    WriteMairEl1(u64),
    WriteTcrEl1(u64),
    WriteTtbr0El1(u64),
    WriteTtbr1El1(u64),
    WriteSctlrEl1(u64),
    /// An instruction synchronization barrier.
    Barrier,
}

/// The steps that activate a token, in the architectural order: MAIR, TCR,
/// TTBR, SCTLR, with a barrier after each but the first.
pub open spec fn activation_order(token: A64PagingToken) -> Seq<A64ActivationStep> {
    let mair = match token.controls.mair_el1 {
        Some(value) => seq![A64ActivationStep::WriteMairEl1(value)],
        None => seq![],
    };
    let tcr = match token.controls.tcr_el1 {
        Some(value) => seq![A64ActivationStep::WriteTcrEl1(value), A64ActivationStep::Barrier],
        None => seq![],
    };
    let ttbr = seq![
        match token.controls.ttbr.register {
            A64Ttbr::Ttbr0El1 => A64ActivationStep::WriteTtbr0El1(token.ttbr_value),
            A64Ttbr::Ttbr1El1 => A64ActivationStep::WriteTtbr1El1(token.ttbr_value),
        },
        A64ActivationStep::Barrier,
    ];
    let sctlr = match token.controls.sctlr_el1 {
        Some(value) => seq![A64ActivationStep::WriteSctlrEl1(value), A64ActivationStep::Barrier],
        None => seq![],
    };
    mair + tcr + ttbr + sctlr
}

/// CPU-local AArch64 EL1 paging activation policy.
#[derive(Clone, Copy, Debug, PartialEq, Eq, Structural)]
pub struct A64PagingActivation {
    pub current_ttbr: A64Ttbr,
}

impl A64PagingActivation {
    pub fn new(current_ttbr: A64Ttbr) -> (r: Self)
        ensures
            r == (A64PagingActivation { current_ttbr }),
    {
        A64PagingActivation { current_ttbr }
    }

    pub fn ttbr0_el1() -> (r: Self)
        ensures
            r == (A64PagingActivation { current_ttbr: A64Ttbr::Ttbr0El1 }),
    {
        Self::new(A64Ttbr::Ttbr0El1)
    }

    pub fn ttbr1_el1() -> (r: Self)
        ensures
            r == (A64PagingActivation { current_ttbr: A64Ttbr::Ttbr1El1 }),
    {
        Self::new(A64Ttbr::Ttbr1El1)
    }

    pub fn current_ttbr(self) -> (r: A64Ttbr)
        ensures
            r == self.current_ttbr,
    {
        self.current_ttbr
    }

    /// Validate a page-table root and encode it with `controls`.
    pub fn install(&self, root: PhysAddr, controls: A64PagingControls) -> (r: PagingResult<
        A64PagingToken,
    >)
        ensures
            r == paging_token(root, controls),
            r matches Ok(token) ==> token.root_frame() == root,
    {
        let ttbr_value: u64 = encode_ttbr(root, controls.ttbr())?;
        Ok(A64PagingToken { root, controls, ttbr_value })
    }

    /// The steps that activate a token.
    pub fn steps(&self, token: A64PagingToken) -> (r: Vec<A64ActivationStep>)
        ensures
            r@ == activation_order(token),
    {
        let mut steps: Vec<A64ActivationStep> = Vec::new();
        if let Some(value) = token.controls.mair_el1() {
            steps.push(A64ActivationStep::WriteMairEl1(value));
        }
        if let Some(value) = token.controls.tcr_el1() {
            steps.push(A64ActivationStep::WriteTcrEl1(value));
            steps.push(A64ActivationStep::Barrier);
        }
        match token.controls.ttbr().register() {
            A64Ttbr::Ttbr0El1 => steps.push(A64ActivationStep::WriteTtbr0El1(token.ttbr_value)),
            A64Ttbr::Ttbr1El1 => steps.push(A64ActivationStep::WriteTtbr1El1(token.ttbr_value)),
        }
        steps.push(A64ActivationStep::Barrier);
        if let Some(value) = token.controls.sctlr_el1() {
            steps.push(A64ActivationStep::WriteSctlrEl1(value));
            steps.push(A64ActivationStep::Barrier);
        }
        proof {
            assert(steps@ =~= activation_order(token));
        }
        steps
    }

    /// The token that observed register values stand for: `ttbr_value` is that
    /// of the register this policy reports on.
    pub fn observed(&self, ttbr_value: u64, mair: u64, tcr: u64, sctlr: u64) -> (r: PagingResult<
        Option<A64PagingToken>,
    >)
        ensures
            r == Ok::<Option<A64PagingToken>, PagingError>(
                Some(
                    A64PagingToken {
                        root: observed_root(ttbr_value),
                        controls: A64PagingControls {
                            mair_el1: Some(mair),
                            tcr_el1: Some(tcr),
                            ttbr: observed_config(self.current_ttbr, ttbr_value),
                            sctlr_el1: Some(sctlr),
                        },
                        ttbr_value,
                    },
                ),
            ),
    {
        let register: A64Ttbr = self.current_ttbr;
        let (asid, cnp): (u64, u64) = match register {
            A64Ttbr::Ttbr0El1 => (ttbr0_asid(ttbr_value), ttbr0_cnp(ttbr_value)),
            A64Ttbr::Ttbr1El1 => (ttbr1_asid(ttbr_value), ttbr1_cnp(ttbr_value)),
        };
        proof {
            assert(ttbr_value >> 48 <= 0xffff) by (bit_vector);
        }
        let ttbr: A64TtbrConfig = A64TtbrConfig::new(register).with_asid(
            asid as u16,
        ).with_common_not_private(cnp != 0);
        Ok(
            Some(
                A64PagingToken {
                    root: PhysAddr(ttbr_root(ttbr_value)),
                    controls: A64PagingControls {
                        mair_el1: Some(mair),
                        tcr_el1: Some(tcr),
                        ttbr,
                        sctlr_el1: Some(sctlr),
                    },
                    ttbr_value,
                },
            ),
        )
    }
}

/// Observing the register value of an installed token gives back its root and
/// its register configuration.
pub proof fn law_a64_ttbr_round_trip(root: PhysAddr, controls: A64PagingControls)
    requires
        paging_token(root, controls) is Ok,
    ensures
        ({
            let value = paging_token(root, controls)->Ok_0.ttbr_value;
            &&& observed_root(value) == root
            &&& observed_config(controls.ttbr.register, value) == controls.ttbr
        }),
{
    let base = root.0;
    let asid16 = controls.ttbr.asid;
    let asid = asid16 as u64;
    let cnp: u64 = if controls.ttbr.common_not_private {
        1
    } else {
        0
    };
    let value = (asid << 48) | base | cnp;
    assert(value & 0xffff_ffff_fffe == base && value >> 48 == asid && value & 1 == cnp)
        by (bit_vector)
        requires
            asid <= 0xffff,
            cnp <= 1,
            base % 0x1000 == 0,
            base < 0x1_0000_0000_0000,
            value == (asid << 48) | base | cnp,
    ;
}

/// Whether a step writes a translation-table base register.
pub open spec fn writes_ttbr(step: A64ActivationStep) -> bool {
    step is WriteTtbr0El1 || step is WriteTtbr1El1
}

/// Where the writes of TCR, the base register and SCTLR stand among the steps.
proof fn lemma_step_places(token: A64PagingToken) -> (r: (int, int, int))
    ensures
        ({
            let steps = activation_order(token);
            let (tcr, ttbr, sctlr) = r;
            &&& tcr == if token.controls.mair_el1 is Some {
                1int
            } else {
                0int
            }
            &&& ttbr == if token.controls.tcr_el1 is Some {
                tcr + 2
            } else {
                tcr
            }
            &&& sctlr == ttbr + 2
            &&& steps.len() == if token.controls.sctlr_el1 is Some {
                sctlr + 2
            } else {
                sctlr
            }
            &&& token.controls.mair_el1 matches Some(v) ==> steps[0]
                == A64ActivationStep::WriteMairEl1(v)
            &&& token.controls.tcr_el1 matches Some(v) ==> steps[tcr]
                == A64ActivationStep::WriteTcrEl1(v) && steps[tcr + 1] == A64ActivationStep::Barrier
            &&& steps[ttbr] == match token.controls.ttbr.register {
                A64Ttbr::Ttbr0El1 => A64ActivationStep::WriteTtbr0El1(token.ttbr_value),
                A64Ttbr::Ttbr1El1 => A64ActivationStep::WriteTtbr1El1(token.ttbr_value),
            }
            &&& steps[ttbr + 1] == A64ActivationStep::Barrier
            &&& token.controls.sctlr_el1 matches Some(v) ==> steps[sctlr]
                == A64ActivationStep::WriteSctlrEl1(v) && steps[sctlr + 1]
                == A64ActivationStep::Barrier
        }),
{
    let tcr: int = if token.controls.mair_el1 is Some {
        1
    } else {
        0
    };
    let ttbr: int = if token.controls.tcr_el1 is Some {
        tcr + 2
    } else {
        tcr
    };
    (tcr, ttbr, ttbr + 2)
}

/// Every register that the controls have a value for is written, with that value,
/// and no other: each of MAIR, TCR and SCTLR whatever the other two are, and
/// the base register that the configuration names, with the encoded root.
pub proof fn law_a64_steps_write_the_controls(token: A64PagingToken, value: u64)
    ensures
        ({
            let steps = activation_order(token);
            let register = token.controls.ttbr.register;
            &&& steps.contains(A64ActivationStep::WriteMairEl1(value)) <==> token.controls.mair_el1
                == Some(value)
            &&& steps.contains(A64ActivationStep::WriteTcrEl1(value)) <==> token.controls.tcr_el1
                == Some(value)
            &&& steps.contains(A64ActivationStep::WriteSctlrEl1(value))
                <==> token.controls.sctlr_el1 == Some(value)
            &&& steps.contains(A64ActivationStep::WriteTtbr0El1(value)) <==> register
                == A64Ttbr::Ttbr0El1 && value == token.ttbr_value
            &&& steps.contains(A64ActivationStep::WriteTtbr1El1(value)) <==> register
                == A64Ttbr::Ttbr1El1 && value == token.ttbr_value
        }),
{
    let (tcr, ttbr, sctlr) = lemma_step_places(token);
}

/// The steps come in the architectural order, each at most once: MAIR, TCR, the
/// base register, SCTLR. A barrier follows every write but that of MAIR at once,
/// and stands nowhere else. So every SCTLR write comes after the write of the
/// base register, and is followed by a barrier.
pub proof fn law_a64_steps_are_ordered(token: A64PagingToken, i: int, j: int)
    requires
        0 <= i < activation_order(token).len(),
        0 <= j < activation_order(token).len(),
    ensures
        ({
            let steps = activation_order(token);
            let (a, b) = (steps[i], steps[j]);
            &&& a is WriteMairEl1 && !(b is WriteMairEl1) ==> i < j
            &&& a is WriteTcrEl1 && (writes_ttbr(b) || b is WriteSctlrEl1) ==> i < j
            &&& writes_ttbr(a) && b is WriteSctlrEl1 ==> i < j
            &&& a is WriteMairEl1 && b is WriteMairEl1 ==> i == j
            &&& a is WriteTcrEl1 && b is WriteTcrEl1 ==> i == j
            &&& writes_ttbr(a) && writes_ttbr(b) ==> i == j
            &&& a is WriteSctlrEl1 && b is WriteSctlrEl1 ==> i == j
            &&& a is WriteTcrEl1 || writes_ttbr(a) || a is WriteSctlrEl1 ==> i + 1 < steps.len()
                && steps[i + 1] is Barrier
            &&& a is Barrier ==> i > 0 && (steps[i - 1] is WriteTcrEl1 || writes_ttbr(steps[i - 1])
                || steps[i - 1] is WriteSctlrEl1)
        }),
{
    let (tcr, ttbr, sctlr) = lemma_step_places(token);
}

/// A root frame is accepted where it is a multiple of 4 KiB below 2^48, and else
/// refused for the first of these that fails. The register value holds CnP in bit
/// 0, the address identifier in bits 63:48, and the root between.
pub proof fn law_a64_ttbr_fields(root: PhysAddr, controls: A64PagingControls)
    ensures
        match paging_token(root, controls) {
            Ok(token) => {
                &&& root.0 as int % 4096 == 0
                &&& root.0 < 0x1_0000_0000_0000
                &&& token.root == root
                &&& token.controls == controls
                &&& token.ttbr_value == controls.ttbr.asid * 0x1_0000_0000_0000 + root.0 + (
                if controls.ttbr.common_not_private {
                    1int
                } else {
                    0int
                })
            },
            Err(PagingError::NotAligned) => root.0 as int % 4096 != 0,
            Err(PagingError::AddressOutOfRange) => root.0 as int % 4096 == 0 && root.0
                >= 0x1_0000_0000_0000,
            Err(_) => false,
        },
{
    let base = root.0;
    let asid = controls.ttbr.asid as u64;
    let cnp: u64 = if controls.ttbr.common_not_private {
        1
    } else {
        0
    };
    if base % 0x1000 == 0 && base < 0x1_0000_0000_0000 {
        assert((asid << 48) | base | cnp == asid * 0x1_0000_0000_0000 + base + cnp) by (bit_vector)
            requires
                asid <= 0xffff,
                cnp <= 1,
                base % 0x1000 == 0,
                base < 0x1_0000_0000_0000,
        ;
    }
}

/// What any value of a base register says: CnP in bit 0, the address identifier in
/// bits 63:48, and the root between.
pub proof fn law_a64_ttbr_observed(register: A64Ttbr, value: u64)
    ensures
        observed_root(value).0 == value as int % 0x1_0000_0000_0000 - value as int % 2,
        observed_config(register, value).register == register,
        observed_config(register, value).asid == value as int / 0x1_0000_0000_0000,
        observed_config(register, value).common_not_private <==> value as int % 2 == 1,
{
    assert(value & 0xffff_ffff_fffe == value % 0x1_0000_0000_0000 - value % 2 && value >> 48
        == value / 0x1_0000_0000_0000 && value & 1 == value % 2 && value / 0x1_0000_0000_0000
        <= 0xffff) by (bit_vector);
}

/// Activating a root with controls writes what the controls have and no more, in the
/// architectural order: each of MAIR, TCR and SCTLR exactly where there is a value
/// for it, whatever the other two are, and the named base register always, with
/// the root, the identifier and CnP in their places. SCTLR comes after the base
/// register, and a barrier follows each of TCR, the base register and SCTLR.
pub proof fn law_a64_activation_applies_controls(
    activation: A64PagingActivation,
    root: PhysAddr,
    controls: A64PagingControls,
    token: A64PagingToken,
    steps: Vec<A64ActivationStep>,
    value: u64,
    i: int,
    j: int,
)
    requires
        call_ensures(A64PagingActivation::install, (&activation, root, controls), Ok(token)),
        call_ensures(A64PagingActivation::steps, (&activation, token), steps),
        0 <= i < steps@.len(),
        0 <= j < steps@.len(),
    ensures
        root.0 as int % 4096 == 0,
        root.0 < 0x1_0000_0000_0000,
        steps@.contains(A64ActivationStep::WriteMairEl1(value)) <==> controls.mair_el1 == Some(
            value,
        ),
        steps@.contains(A64ActivationStep::WriteTcrEl1(value)) <==> controls.tcr_el1 == Some(value),
        steps@.contains(A64ActivationStep::WriteSctlrEl1(value)) <==> controls.sctlr_el1 == Some(
            value,
        ),
        ({
            let cnp = if controls.ttbr.common_not_private {
                1int
            } else {
                0int
            };
            let word = controls.ttbr.asid * 0x1_0000_0000_0000 + root.0 + cnp;
            &&& steps@.contains(A64ActivationStep::WriteTtbr0El1(value))
                <==> controls.ttbr.register == A64Ttbr::Ttbr0El1 && value == word
            &&& steps@.contains(A64ActivationStep::WriteTtbr1El1(value))
                <==> controls.ttbr.register == A64Ttbr::Ttbr1El1 && value == word
        }),
        steps@[i] is WriteMairEl1 && !(steps@[j] is WriteMairEl1) ==> i < j,
        steps@[i] is WriteTcrEl1 && (writes_ttbr(steps@[j]) || steps@[j] is WriteSctlrEl1) ==> i
            < j,
        writes_ttbr(steps@[i]) && steps@[j] is WriteSctlrEl1 ==> i < j,
        steps@[i] == steps@[j] && !(steps@[i] is Barrier) ==> i == j,
        steps@[i] is WriteTcrEl1 || writes_ttbr(steps@[i]) || steps@[i] is WriteSctlrEl1 ==> i + 1
            < steps@.len() && steps@[i + 1] is Barrier,
{
    law_a64_steps_write_the_controls(token, value);
    law_a64_steps_are_ordered(token, i, j);
    law_a64_ttbr_fields(root, controls);
}

/// A root that cannot be installed is refused for the first cause: it is no
/// multiple of 4 KiB, or does not lie below 2^48. Any other is installed.
pub proof fn law_a64_install_answers(
    activation: A64PagingActivation,
    root: PhysAddr,
    controls: A64PagingControls,
    r: PagingResult<A64PagingToken>,
)
    requires
        call_ensures(A64PagingActivation::install, (&activation, root, controls), r),
    ensures
        match r {
            Ok(token) => root.0 as int % 4096 == 0 && root.0 < 0x1_0000_0000_0000 && token.root
                == root && token.controls == controls,
            Err(e) => if root.0 as int % 4096 != 0 {
                e == PagingError::NotAligned
            } else {
                root.0 >= 0x1_0000_0000_0000 && e == PagingError::AddressOutOfRange
            },
        },
{
    law_a64_ttbr_fields(root, controls);
}

/// What was installed is observed: reading the registers back that an activation
/// wrote gives the root, the register's configuration and the control values.
pub proof fn law_a64_observes_what_was_installed(
    activation: A64PagingActivation,
    root: PhysAddr,
    controls: A64PagingControls,
    token: A64PagingToken,
    mair: u64,
    tcr: u64,
    sctlr: u64,
    r: PagingResult<Option<A64PagingToken>>,
)
    requires
        call_ensures(A64PagingActivation::install, (&activation, root, controls), Ok(token)),
        controls.ttbr.register == activation.current_ttbr,
        call_ensures(
            A64PagingActivation::observed,
            (&activation, token.ttbr_value, mair, tcr, sctlr),
            r,
        ),
    ensures
        r matches Ok(Some(seen)) && seen.root == root && seen.ttbr_value == token.ttbr_value
            && seen.controls == (A64PagingControls {
            mair_el1: Some(mair),
            tcr_el1: Some(tcr),
            ttbr: controls.ttbr,
            sctlr_el1: Some(sctlr),
        }),
{
    law_a64_ttbr_round_trip(root, controls);
}

/// Controls keep what they are given: a new register configuration has identifier
/// zero and no CnP, new controls have no values but that configuration, and a
/// replacement of one changes none of the others.
pub proof fn law_a64_controls_keep_values(
    register: A64Ttbr,
    ttbr: A64TtbrConfig,
    controls: A64PagingControls,
    asid: u16,
    cnp: bool,
    value: u64,
    new_ttbr: A64TtbrConfig,
    tagged: A64TtbrConfig,
    common: A64TtbrConfig,
    new: A64PagingControls,
    mair: A64PagingControls,
    tcr: A64PagingControls,
    sctlr: A64PagingControls,
)
    requires
        call_ensures(A64TtbrConfig::new, (register,), new_ttbr),
        call_ensures(A64TtbrConfig::with_asid, (ttbr, asid), tagged),
        call_ensures(A64TtbrConfig::with_common_not_private, (ttbr, cnp), common),
        call_ensures(A64PagingControls::new, (ttbr,), new),
        call_ensures(A64PagingControls::with_mair_el1, (controls, value), mair),
        call_ensures(A64PagingControls::with_tcr_el1, (controls, value), tcr),
        call_ensures(A64PagingControls::with_sctlr_el1, (controls, value), sctlr),
    ensures
        new_ttbr.register == register && new_ttbr.asid == 0 && !new_ttbr.common_not_private,
        tagged.asid == asid && tagged.register == ttbr.register && tagged.common_not_private
            == ttbr.common_not_private,
        common.common_not_private == cnp && common.register == ttbr.register && common.asid
            == ttbr.asid,
        new.ttbr == ttbr && new.mair_el1 is None && new.tcr_el1 is None && new.sctlr_el1 is None,
        mair.mair_el1 == Some(value) && mair.tcr_el1 == controls.tcr_el1 && mair.sctlr_el1
            == controls.sctlr_el1 && mair.ttbr == controls.ttbr,
        tcr.tcr_el1 == Some(value) && tcr.mair_el1 == controls.mair_el1 && tcr.sctlr_el1
            == controls.sctlr_el1 && tcr.ttbr == controls.ttbr,
        sctlr.sctlr_el1 == Some(value) && sctlr.mair_el1 == controls.mair_el1 && sctlr.tcr_el1
            == controls.tcr_el1 && sctlr.ttbr == controls.ttbr,
{
}

/// Controls and tokens are read as what they hold.
pub proof fn law_a64_values_are_read(
    ttbr: A64TtbrConfig,
    controls: A64PagingControls,
    token: A64PagingToken,
    config: (A64Ttbr, u16, bool),
    values: (Option<u64>, Option<u64>, Option<u64>, A64TtbrConfig),
    held: (PhysAddr, A64PagingControls, u64),
)
    requires
        call_ensures(A64TtbrConfig::register, (ttbr,), config.0),
        call_ensures(A64TtbrConfig::asid, (ttbr,), config.1),
        call_ensures(A64TtbrConfig::common_not_private, (ttbr,), config.2),
        call_ensures(A64PagingControls::mair_el1, (controls,), values.0),
        call_ensures(A64PagingControls::tcr_el1, (controls,), values.1),
        call_ensures(A64PagingControls::sctlr_el1, (controls,), values.2),
        call_ensures(A64PagingControls::ttbr, (controls,), values.3),
        call_ensures(A64PagingToken::root, (token,), held.0),
        call_ensures(A64PagingToken::controls, (token,), held.1),
        call_ensures(A64PagingToken::ttbr_value, (token,), held.2),
    ensures
        config == (ttbr.register, ttbr.asid, ttbr.common_not_private),
        values == (controls.mair_el1, controls.tcr_el1, controls.sctlr_el1, controls.ttbr),
        held == (token.root, token.controls, token.ttbr_value),
{
}

} // verus!
