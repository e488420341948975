//! Encoding address spaces for the `satp` register.

use crate::addr::PhysAddr;
use crate::error::{PagingError, PagingResult};
use crate::meta::PageSize;
use crate::paging::AddrSpaceToken;
use vstd::arithmetic::power2::{lemma2_to64, lemma2_to64_rest};
use vstd::bits::{
    lemma_low_bits_mask_values, lemma_u64_low_bits_mask_is_mod, lemma_u64_shr_is_div, low_bits_mask,
};
use vstd::prelude::*;

verus! {

/// Address-translation schemes that `satp` can select.
#[derive(Clone, Copy, Debug, PartialEq, Eq, Structural)]
pub enum Rv64SatpMode {
    /// No translation or protection.
    Bare,
    Sv39,
    Sv48,
    Sv57,
    Sv64,
}

/// The scheme that the top four bits of a `satp` value select.
pub open spec fn mode_of(bits: u64) -> Option<Rv64SatpMode> {
    match bits >> 60 {
        0 => Some(Rv64SatpMode::Bare),
        8 => Some(Rv64SatpMode::Sv39),
        9 => Some(Rv64SatpMode::Sv48),
        10 => Some(Rv64SatpMode::Sv57),
        11 => Some(Rv64SatpMode::Sv64),
        _ => None,
    }
}

/// `riscv::register::satp::Satp::try_mode`: the scheme of a 64-bit `satp`
/// value, from bits 63:60, unless they name none.
#[verifier::external_body]
fn satp_mode(bits: u64) -> (r: Option<Rv64SatpMode>)
    ensures
        r == mode_of(bits),
{
    match riscv::register::satp::Satp::from_bits(bits as usize).try_mode() {
        Ok(riscv::register::satp::Mode::Bare) => Some(Rv64SatpMode::Bare),
        Ok(riscv::register::satp::Mode::Sv39) => Some(Rv64SatpMode::Sv39),
        Ok(riscv::register::satp::Mode::Sv48) => Some(Rv64SatpMode::Sv48),
        Ok(riscv::register::satp::Mode::Sv57) => Some(Rv64SatpMode::Sv57),
        Ok(riscv::register::satp::Mode::Sv64) => Some(Rv64SatpMode::Sv64),
        Err(_) => None,
    }
}

/// `riscv::register::satp::Satp::asid`: bits 59:44 of a 64-bit `satp` value.
#[verifier::external_body]
fn satp_asid(bits: u64) -> (r: u16)
    ensures
        r == (bits >> 44) & 0xffff,
{
    riscv::register::satp::Satp::from_bits(bits as usize).asid() as u16
}

/// `riscv::register::satp::Satp::ppn`: bits 43:0 of a 64-bit `satp` value.
#[verifier::external_body]
fn satp_ppn(bits: u64) -> (r: u64)
    ensures
        r == bits & 0x0fff_ffff_ffff,
{
    riscv::register::satp::Satp::from_bits(bits as usize).ppn() as u64
}

/// RISC-V `satp` values to apply when activating an address space.
#[derive(Clone, Copy, Debug, PartialEq, Eq, Structural)]
pub struct Rv64SatpControls {
    pub mode: Rv64SatpMode,
    pub asid: u16,
    pub fence_after: bool,
}

impl Rv64SatpControls {
    /// Controls for address-space identifier zero, with a fence after the
    /// switch.
    pub fn new(mode: Rv64SatpMode) -> (r: Self)
        ensures
            r == (Rv64SatpControls { mode, asid: 0, fence_after: true }),
    {
        Rv64SatpControls { mode, asid: 0, fence_after: true }
    }

    pub fn with_asid(self, asid: u16) -> (r: Self)
        ensures
            r == (Rv64SatpControls { asid, ..self }),
    {
        Rv64SatpControls { asid, ..self }
    }

    pub fn with_fence_after(self, fence_after: bool) -> (r: Self)
        ensures
            r == (Rv64SatpControls { fence_after, ..self }),
    {
        Rv64SatpControls { fence_after, ..self }
    }

    pub fn mode(self) -> (r: Rv64SatpMode)
        ensures
            r == self.mode,
    {
        self.mode
    }

    pub fn asid(self) -> (r: u16)
        ensures
            r == self.asid,
    {
        self.asid
    }

    pub fn fence_after(self) -> (r: bool)
        ensures
            r == self.fence_after,
    {
        self.fence_after
    }
}

/// Installed RISC-V address-space token.
#[derive(Clone, Copy, Debug, PartialEq, Eq, Structural)]
pub struct Rv64SatpToken {
    pub root: PhysAddr,
    pub controls: Rv64SatpControls,
    pub ppn: u64,
}

impl Rv64SatpToken {
    pub fn root(self) -> (r: PhysAddr)
        ensures
            r == self.root,
    {
        self.root
    }

    pub fn controls(self) -> (r: Rv64SatpControls)
        ensures
            r == self.controls,
    {
        self.controls
    }

    pub fn ppn(self) -> (r: u64)
        ensures
            r == self.ppn,
    {
        self.ppn
    }
}

impl AddrSpaceToken for Rv64SatpToken {
    open spec fn root_frame(self) -> PhysAddr {
        self.root
    }

    fn root(self) -> (r: PhysAddr) {
        self.root
    }
}

/// The page number that `satp` holds for a root frame.
pub open spec fn root_ppn(root: PhysAddr) -> PagingResult<u64> {
    if root.0 % 0x1000 != 0 {
        Err(PagingError::NotAligned)
    } else if root.0 >= 0x100_0000_0000_0000 {
        Err(PagingError::AddressOutOfRange)
    } else {
        Ok((root.0 / 0x1000) as u64)
    }
}

/// The token of a root frame with controls.
pub open spec fn satp_token(root: PhysAddr, controls: Rv64SatpControls) -> PagingResult<
    Rv64SatpToken,
> {
    match root_ppn(root) {
        Err(e) => Err(e),
        Ok(ppn) => Ok(Rv64SatpToken { root, controls, ppn }),
    }
}

/// The token that a `satp` value stands for. It carries the observed scheme
/// and identifier; whether a fence followed is not to be seen in it.
pub open spec fn observed_token(bits: u64) -> PagingResult<Option<Rv64SatpToken>> {
    match mode_of(bits) {
        None => Err(PagingError::InvalidMappingShape),
        Some(mode) => Ok(
            Some(
                Rv64SatpToken {
                    root: PhysAddr(((bits & 0x0fff_ffff_ffff) * 0x1000) as u64),
                    controls: Rv64SatpControls {
                        mode,
                        asid: ((bits >> 44) & 0xffff) as u16,
                        fence_after: true,
                    },
                    ppn: bits & 0x0fff_ffff_ffff,
                },
            ),
        ),
    }
}

/// The page number that `satp` holds for a root frame.
pub fn ppn_from_root(root: PhysAddr) -> (r: PagingResult<u64>)
    ensures
        r == root_ppn(root),
{
    if !PageSize::Size4K.is_aligned(root.as_u64()) {
        return Err(PagingError::NotAligned);
    }
    let ppn: u64 = root.as_u64() >> 12;
    proof {
        let p = root.0;
        assert(p >> 12 == p / 0x1000) by (bit_vector);
    }
    if ppn > 0x0fff_ffff_ffff {
        return Err(PagingError::AddressOutOfRange);
    }
    Ok(ppn)
}

/// One step of activating an address space.
#[derive(Clone, Copy, Debug, PartialEq, Eq, Structural)]
pub enum Rv64ActivationStep {
    WriteSatp { mode: Rv64SatpMode, asid: u16, ppn: u64 },
    /// `sfence.vma` for every address and every identifier.
    Fence,
}

/// The steps that activate a token: `satp` first, then the fence, if one is
/// asked for.
pub open spec fn activation_order(token: Rv64SatpToken) -> Seq<Rv64ActivationStep> {
    let write = Rv64ActivationStep::WriteSatp {
        mode: token.controls.mode,
        asid: token.controls.asid,
        ppn: token.ppn,
    };
    if token.controls.fence_after {
        seq![write, Rv64ActivationStep::Fence]
    } else {
        seq![write]
    }
}

/// CPU-local RISC-V `satp` activation policy.
#[derive(Clone, Copy, Debug, Default)]
pub struct Rv64SatpActivation;

impl Rv64SatpActivation {
    pub fn new() -> (r: Self)
        ensures
            r == Rv64SatpActivation,
    {
        Rv64SatpActivation
    }

    /// Validate a page-table root and encode it with `controls`.
    pub fn install(&self, root: PhysAddr, controls: Rv64SatpControls) -> (r: PagingResult<
        Rv64SatpToken,
    >)
        ensures
            r == satp_token(root, controls),
            r matches Ok(token) ==> token.root_frame() == root,
    {
        let ppn: u64 = ppn_from_root(root)?;
        Ok(Rv64SatpToken { root, controls, ppn })
    }

    /// The steps that activate a token.
    pub fn steps(&self, token: Rv64SatpToken) -> (r: Vec<Rv64ActivationStep>)
        ensures
            r@ == activation_order(token),
    {
        let mut steps: Vec<Rv64ActivationStep> = Vec::new();
        steps.push(
            Rv64ActivationStep::WriteSatp {
                mode: token.controls.mode(),
                asid: token.controls.asid(),
                ppn: token.ppn,
            },
        );
        if token.controls.fence_after() {
            steps.push(Rv64ActivationStep::Fence);
        }
        steps
    }

    /// The token that a value read from `satp` stands for.
    pub fn observed(&self, bits: u64) -> (r: PagingResult<Option<Rv64SatpToken>>)
        ensures
            r == observed_token(bits),
    {
        let mode: Rv64SatpMode = match satp_mode(bits) {
            Some(mode) => mode,
            None => return Err(PagingError::InvalidMappingShape),
        };
        let ppn: u64 = satp_ppn(bits);
        proof {
            assert(((bits >> 44) & 0xffff) <= 0xffff && (bits & 0x0fff_ffff_ffff)
                <= 0x0fff_ffff_ffff && (bits & 0x0fff_ffff_ffff) << 12 == (bits & 0x0fff_ffff_ffff)
                * 0x1000) by (bit_vector);
        }
        let controls: Rv64SatpControls = Rv64SatpControls::new(mode).with_asid(satp_asid(bits));
        Ok(Some(Rv64SatpToken { root: PhysAddr(ppn << 12), controls, ppn }))
    }
}

/// Observing the value that a token is written as gives back its root, its
/// page number, its scheme and its identifier.
pub proof fn law_rv64_satp_round_trip(root: PhysAddr, controls: Rv64SatpControls, bits: u64)
    requires
        satp_token(root, controls) is Ok,
        mode_of(bits) == Some(controls.mode),
        (bits >> 44) & 0xffff == controls.asid,
        bits & 0x0fff_ffff_ffff == satp_token(root, controls)->Ok_0.ppn,
    ensures
        observed_token(bits) matches Ok(Some(token)) && token.root == root && token.ppn
            == satp_token(root, controls)->Ok_0.ppn && token.controls.mode == controls.mode
            && token.controls.asid == controls.asid,
{
}

/// A root frame is accepted where it is a multiple of 4 KiB whose page number
/// has at most 44 bits, and else refused for the first of these that fails. The
/// page number counts the pages below the root.
pub proof fn law_rv64_root_pages(root: PhysAddr, controls: Rv64SatpControls)
    ensures
        match satp_token(root, controls) {
            Ok(token) => {
                &&& root.0 == token.ppn * 4096
                &&& token.ppn < 0x1000_0000_0000
                &&& token.root == root
                &&& token.controls == controls
            },
            Err(PagingError::NotAligned) => root.0 as int % 4096 != 0,
            Err(PagingError::AddressOutOfRange) => root.0 as int % 4096 == 0 && root.0 as int
                / 4096 >= 0x1000_0000_0000,
            Err(_) => false,
        },
{
}

/// Activation writes `satp` once, first, with the token's scheme, identifier
/// and page number. A fence follows it where the controls ask for one; there is
/// no other step.
pub proof fn law_rv64_steps_write_the_token(token: Rv64SatpToken)
    ensures
        ({
            let steps = activation_order(token);
            &&& steps.len() == 1 || steps.len() == 2
            &&& steps[0] matches Rv64ActivationStep::WriteSatp { mode, asid, ppn } && mode
                == token.controls.mode && asid == token.controls.asid && ppn == token.ppn
            &&& steps.len() == 2 <==> token.controls.fence_after
            &&& steps.len() == 2 ==> steps[1] is Fence
        }),
{
}

/// What a `satp` value says: the scheme stands in its top four bits, where 0 is
/// none and 8 to 11 are those of three to six levels, the identifier in the
/// sixteen below, and the root's page number in the rest. A value with another
/// scheme is refused.
pub proof fn law_rv64_satp_fields(bits: u64)
    ensures
        ({
            let scheme = bits as int / 0x1000_0000_0000_0000;
            match observed_token(bits) {
                Ok(Some(token)) => {
                    &&& match token.controls.mode {
                        Rv64SatpMode::Bare => scheme == 0,
                        Rv64SatpMode::Sv39 => scheme == 8,
                        Rv64SatpMode::Sv48 => scheme == 9,
                        Rv64SatpMode::Sv57 => scheme == 10,
                        Rv64SatpMode::Sv64 => scheme == 11,
                    }
                    &&& token.controls.asid == bits as int / 0x1000_0000_0000 % 0x1_0000
                    &&& token.controls.fence_after
                    &&& token.ppn == bits as int % 0x1000_0000_0000
                    &&& token.root.0 == token.ppn * 4096
                },
                Ok(None) => false,
                Err(e) => e == PagingError::InvalidMappingShape && scheme != 0 && !(8 <= scheme
                    <= 11),
            }
        }),
{
    lemma2_to64();
    lemma2_to64_rest();
    lemma_u64_shr_is_div(bits, 60);
    lemma_u64_shr_is_div(bits, 44);
    lemma_low_bits_mask_values();
    lemma_u64_low_bits_mask_is_mod(bits >> 44, 16);
    lemma_u64_low_bits_mask_is_mod(bits, 44);
    assert(low_bits_mask(44) == 0x0fff_ffff_ffff);
}

/// Activating a root with controls writes `satp` once, first, with the scheme and
/// identifier of the controls and the page number of the root, and then fences
/// exactly where the controls ask for that.
pub proof fn law_rv64_activation_applies_controls(
    activation: Rv64SatpActivation,
    root: PhysAddr,
    controls: Rv64SatpControls,
    token: Rv64SatpToken,
    steps: Vec<Rv64ActivationStep>,
)
    requires
        call_ensures(Rv64SatpActivation::install, (&activation, root, controls), Ok(token)),
        call_ensures(Rv64SatpActivation::steps, (&activation, token), steps),
    ensures
        steps@.len() == if controls.fence_after {
            2int
        } else {
            1int
        },
        steps@[0] matches Rv64ActivationStep::WriteSatp { mode, asid, ppn } && mode
            == controls.mode && asid == controls.asid && ppn * 4096 == root.0,
        controls.fence_after ==> steps@[1] is Fence,
{
    law_rv64_root_pages(root, controls);
    law_rv64_steps_write_the_token(token);
}

/// A root that cannot be installed is refused for the first cause: it is no
/// multiple of 4 KiB, or its page number has more than 44 bits. Any other is
/// installed.
pub proof fn law_rv64_install_answers(
    activation: Rv64SatpActivation,
    root: PhysAddr,
    controls: Rv64SatpControls,
    r: PagingResult<Rv64SatpToken>,
)
    requires
        call_ensures(Rv64SatpActivation::install, (&activation, root, controls), r),
    ensures
        match r {
            Ok(token) => root.0 as int % 4096 == 0 && root.0 as int / 4096 < 0x1000_0000_0000
                && token.root == root && token.controls == controls,
            Err(e) => if root.0 as int % 4096 != 0 {
                e == PagingError::NotAligned
            } else {
                root.0 as int / 4096 >= 0x1000_0000_0000 && e == PagingError::AddressOutOfRange
            },
        },
{
    law_rv64_root_pages(root, controls);
}

/// Controls keep what they are given: new ones have identifier zero and ask for a
/// fence, and a replacement of one value changes none of the others.
pub proof fn law_rv64_controls_keep_values(
    mode: Rv64SatpMode,
    controls: Rv64SatpControls,
    asid: u16,
    fence: bool,
    new: Rv64SatpControls,
    tagged: Rv64SatpControls,
    fenced: Rv64SatpControls,
)
    requires
        call_ensures(Rv64SatpControls::new, (mode,), new),
        call_ensures(Rv64SatpControls::with_asid, (controls, asid), tagged),
        call_ensures(Rv64SatpControls::with_fence_after, (controls, fence), fenced),
    ensures
        new.mode == mode && new.asid == 0 && new.fence_after,
        tagged.asid == asid && tagged.mode == controls.mode && tagged.fence_after
            == controls.fence_after,
        fenced.fence_after == fence && fenced.mode == controls.mode && fenced.asid == controls.asid,
{
}

/// What was installed is observed: a `satp` value that holds the scheme, the
/// identifier and the page number of a token in their places is read as its root
/// and controls.
pub proof fn law_rv64_observes_what_was_installed(
    activation: Rv64SatpActivation,
    root: PhysAddr,
    controls: Rv64SatpControls,
    token: Rv64SatpToken,
    r: PagingResult<Option<Rv64SatpToken>>,
    bits: u64,
)
    requires
        call_ensures(Rv64SatpActivation::install, (&activation, root, controls), Ok(token)),
        bits == token.ppn + controls.asid * 0x1000_0000_0000 + match controls.mode {
            Rv64SatpMode::Bare => 0int,
            Rv64SatpMode::Sv39 => 8,
            Rv64SatpMode::Sv48 => 9,
            Rv64SatpMode::Sv57 => 10,
            Rv64SatpMode::Sv64 => 11,
        } * 0x1000_0000_0000_0000,
        call_ensures(Rv64SatpActivation::observed, (&activation, bits), r),
    ensures
        r matches Ok(Some(seen)) && seen.root == root && seen.ppn == token.ppn
            && seen.controls.mode == controls.mode && seen.controls.asid == controls.asid,
{
    law_rv64_root_pages(root, controls);
    law_rv64_satp_fields(bits);
}

/// Controls and tokens are read as what they hold.
pub proof fn law_rv64_values_are_read(
    controls: Rv64SatpControls,
    token: Rv64SatpToken,
    values: (Rv64SatpMode, u16, bool),
    held: (PhysAddr, Rv64SatpControls, u64),
)
    requires
        call_ensures(Rv64SatpControls::mode, (controls,), values.0),
        call_ensures(Rv64SatpControls::asid, (controls,), values.1),
        call_ensures(Rv64SatpControls::fence_after, (controls,), values.2),
        call_ensures(Rv64SatpToken::root, (token,), held.0),
        call_ensures(Rv64SatpToken::controls, (token,), held.1),
        call_ensures(Rv64SatpToken::ppn, (token,), held.2),
    ensures
        values == (controls.mode, controls.asid, controls.fence_after),
        held == (token.root, token.controls, token.ppn),
{
}

} // verus!
