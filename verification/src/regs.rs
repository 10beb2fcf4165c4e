//! The chip's register map, reproduced from its register specification.
//!
//! The map is data: each register is named by a [`Reg`] and described by a
//! [`Register`] (bus id, sub-id, payload length in bytes, access mode). One
//! shared codec ([`crate::codec`]) and header builder ([`crate::addressing`])
//! serve every entry; field bit positions are given at the call sites that
//! use them, next to the chip documentation they come from.

use vstd::prelude::*;

verus! {

/// The access mode of a register.
#[derive(Clone, Copy, Debug, PartialEq, Eq, Structural)]
pub enum Access {
    /// The register can only be read.
    ReadOnly,
    /// The register can only be written.
    WriteOnly,
    /// The register can be read and written.
    ReadWrite,
}

/// One register of the chip's map.
#[derive(Clone, Copy, Debug, PartialEq, Eq, Structural)]
pub struct Register {
    /// The register index on the bus (6 bits).
    pub id: u8,
    /// The register's sub-index (15 bits); zero when the register has none.
    pub sub_id: u16,
    /// The length of the register's payload in bytes.
    pub len: usize,
    /// The access mode.
    pub access: Access,
}

impl Register {
    /// The id fits in 6 bits, the sub-id in 15, and the payload is at most
    /// as long as the chip's largest register.
    pub open spec fn wf(self) -> bool {
        self.id <= 0x3f && self.sub_id <= 0x7fff && 1 <= self.len <= 127
    }

    /// Whether the register may be read.
    pub open spec fn spec_readable(self) -> bool {
        self.access is ReadOnly || self.access is ReadWrite
    }

    /// Whether the register may be written.
    pub open spec fn spec_writable(self) -> bool {
        self.access is WriteOnly || self.access is ReadWrite
    }
}

/// The registers of the chip's map.
#[derive(Clone, Copy, Debug, PartialEq, Eq, Structural)]
pub enum Reg {
    /// Device identifier
    DevId,
    /// Extended unique identifier
    Eui,
    /// PAN identifier and short address
    Panadr,
    /// System configuration
    SysCfg,
    /// System time counter
    SysTime,
    /// TX frame control
    TxFctrl,
    /// Transmit data buffer
    TxBuffer,
    /// Delayed send or receive time
    DxTime,
    /// System control
    SysCtrl,
    /// System event mask
    SysMask,
    /// System event status; write one to clear
    SysStatus,
    /// RX frame information
    RxFinfo,
    /// Receive data buffer
    RxBuffer,
    /// Receive time stamp
    RxTime,
    /// TX antenna delay
    TxAntd,
    /// System state information
    SysState,
    /// TX power control
    TxPower,
    /// AGC tuning register 1
    AgcTune1,
    /// AGC tuning register 2
    AgcTune2,
    /// External clock sync counter configuration
    EcCtrl,
    /// Digital receiver tuning register 2
    DrxTune2,
    /// Analog TX control
    RfTxctrl,
    /// Pulse generator delay
    TcPgdelay,
    /// Frequency synthesizer PLL tuning
    FsPlltune,
    /// OTP address
    OtpAddr,
    /// OTP control
    OtpCtrl,
    /// OTP read data
    OtpRdat,
    /// LDO voltage tuning
    Ldotune,
    /// LDE configuration register 1
    LdeCfg1,
    /// RX antenna delay for LDE
    LdeRxantd,
    /// LDE configuration register 2
    LdeCfg2,
    /// Event counter control
    EvcCtrl,
    /// Half period warning counter
    EvcHpw,
    /// TX power-up warning counter
    EvcTpw,
    /// PMSC control register 0
    PmscCtrl0,
    /// PMSC control register 1
    PmscCtrl1,
}

/// The descriptor of each register, as the chip's documentation gives it.
pub open spec fn spec_descriptor(r: Reg) -> Register {
    match r {
        Reg::DevId => Register { id: 0x00, sub_id: 0x0000, len: 4, access: Access::ReadOnly },
        Reg::Eui => Register { id: 0x01, sub_id: 0x0000, len: 8, access: Access::ReadWrite },
        Reg::Panadr => Register { id: 0x03, sub_id: 0x0000, len: 4, access: Access::ReadWrite },
        Reg::SysCfg => Register { id: 0x04, sub_id: 0x0000, len: 4, access: Access::ReadWrite },
        Reg::SysTime => Register { id: 0x06, sub_id: 0x0000, len: 5, access: Access::ReadOnly },
        Reg::TxFctrl => Register { id: 0x08, sub_id: 0x0000, len: 5, access: Access::ReadWrite },
        Reg::TxBuffer => Register { id: 0x09, sub_id: 0x0000, len: 127, access: Access::WriteOnly },
        Reg::DxTime => Register { id: 0x0A, sub_id: 0x0000, len: 5, access: Access::ReadWrite },
        Reg::SysCtrl => Register { id: 0x0D, sub_id: 0x0000, len: 4, access: Access::ReadWrite },
        Reg::SysMask => Register { id: 0x0E, sub_id: 0x0000, len: 4, access: Access::ReadWrite },
        Reg::SysStatus => Register { id: 0x0F, sub_id: 0x0000, len: 5, access: Access::ReadWrite },
        Reg::RxFinfo => Register { id: 0x10, sub_id: 0x0000, len: 4, access: Access::ReadOnly },
        Reg::RxBuffer => Register { id: 0x11, sub_id: 0x0000, len: 127, access: Access::ReadOnly },
        Reg::RxTime => Register { id: 0x15, sub_id: 0x0000, len: 14, access: Access::ReadOnly },
        Reg::TxAntd => Register { id: 0x18, sub_id: 0x0000, len: 2, access: Access::ReadWrite },
        Reg::SysState => Register { id: 0x19, sub_id: 0x0000, len: 5, access: Access::ReadOnly },
        Reg::TxPower => Register { id: 0x1E, sub_id: 0x0000, len: 4, access: Access::ReadWrite },
        Reg::AgcTune1 => Register { id: 0x23, sub_id: 0x0004, len: 2, access: Access::ReadWrite },
        Reg::AgcTune2 => Register { id: 0x23, sub_id: 0x000C, len: 4, access: Access::ReadWrite },
        Reg::EcCtrl => Register { id: 0x24, sub_id: 0x0000, len: 4, access: Access::ReadWrite },
        Reg::DrxTune2 => Register { id: 0x27, sub_id: 0x0008, len: 4, access: Access::ReadWrite },
        Reg::RfTxctrl => Register { id: 0x28, sub_id: 0x000C, len: 4, access: Access::ReadWrite },
        Reg::TcPgdelay => Register { id: 0x2A, sub_id: 0x000B, len: 1, access: Access::ReadWrite },
        Reg::FsPlltune => Register { id: 0x2B, sub_id: 0x000B, len: 1, access: Access::ReadWrite },
        Reg::OtpAddr => Register { id: 0x2D, sub_id: 0x0004, len: 2, access: Access::ReadWrite },
        Reg::OtpCtrl => Register { id: 0x2D, sub_id: 0x0006, len: 2, access: Access::ReadWrite },
        Reg::OtpRdat => Register { id: 0x2D, sub_id: 0x000A, len: 4, access: Access::ReadOnly },
        Reg::Ldotune => Register { id: 0x2D, sub_id: 0x0030, len: 5, access: Access::ReadWrite },
        Reg::LdeCfg1 => Register { id: 0x2E, sub_id: 0x0806, len: 1, access: Access::ReadWrite },
        Reg::LdeRxantd => Register { id: 0x2E, sub_id: 0x1804, len: 2, access: Access::ReadWrite },
        Reg::LdeCfg2 => Register { id: 0x2E, sub_id: 0x1806, len: 2, access: Access::ReadWrite },
        Reg::EvcCtrl => Register { id: 0x2F, sub_id: 0x0000, len: 4, access: Access::ReadWrite },
        Reg::EvcHpw => Register { id: 0x2F, sub_id: 0x0024, len: 2, access: Access::ReadOnly },
        Reg::EvcTpw => Register { id: 0x2F, sub_id: 0x0026, len: 2, access: Access::ReadOnly },
        Reg::PmscCtrl0 => Register { id: 0x36, sub_id: 0x0000, len: 4, access: Access::ReadWrite },
        Reg::PmscCtrl1 => Register { id: 0x36, sub_id: 0x0004, len: 4, access: Access::ReadWrite },
    }
}

/// Returns the descriptor of a register.
pub fn descriptor(r: Reg) -> (d: Register)
    ensures
        d == spec_descriptor(r),
        d.wf(),
{
    match r {
        Reg::DevId => Register { id: 0x00, sub_id: 0x0000, len: 4, access: Access::ReadOnly },
        Reg::Eui => Register { id: 0x01, sub_id: 0x0000, len: 8, access: Access::ReadWrite },
        Reg::Panadr => Register { id: 0x03, sub_id: 0x0000, len: 4, access: Access::ReadWrite },
        Reg::SysCfg => Register { id: 0x04, sub_id: 0x0000, len: 4, access: Access::ReadWrite },
        Reg::SysTime => Register { id: 0x06, sub_id: 0x0000, len: 5, access: Access::ReadOnly },
        Reg::TxFctrl => Register { id: 0x08, sub_id: 0x0000, len: 5, access: Access::ReadWrite },
        Reg::TxBuffer => Register { id: 0x09, sub_id: 0x0000, len: 127, access: Access::WriteOnly },
        Reg::DxTime => Register { id: 0x0A, sub_id: 0x0000, len: 5, access: Access::ReadWrite },
        Reg::SysCtrl => Register { id: 0x0D, sub_id: 0x0000, len: 4, access: Access::ReadWrite },
        Reg::SysMask => Register { id: 0x0E, sub_id: 0x0000, len: 4, access: Access::ReadWrite },
        Reg::SysStatus => Register { id: 0x0F, sub_id: 0x0000, len: 5, access: Access::ReadWrite },
        Reg::RxFinfo => Register { id: 0x10, sub_id: 0x0000, len: 4, access: Access::ReadOnly },
        Reg::RxBuffer => Register { id: 0x11, sub_id: 0x0000, len: 127, access: Access::ReadOnly },
        Reg::RxTime => Register { id: 0x15, sub_id: 0x0000, len: 14, access: Access::ReadOnly },
        Reg::TxAntd => Register { id: 0x18, sub_id: 0x0000, len: 2, access: Access::ReadWrite },
        Reg::SysState => Register { id: 0x19, sub_id: 0x0000, len: 5, access: Access::ReadOnly },
        Reg::TxPower => Register { id: 0x1E, sub_id: 0x0000, len: 4, access: Access::ReadWrite },
        Reg::AgcTune1 => Register { id: 0x23, sub_id: 0x0004, len: 2, access: Access::ReadWrite },
        Reg::AgcTune2 => Register { id: 0x23, sub_id: 0x000C, len: 4, access: Access::ReadWrite },
        Reg::EcCtrl => Register { id: 0x24, sub_id: 0x0000, len: 4, access: Access::ReadWrite },
        Reg::DrxTune2 => Register { id: 0x27, sub_id: 0x0008, len: 4, access: Access::ReadWrite },
        Reg::RfTxctrl => Register { id: 0x28, sub_id: 0x000C, len: 4, access: Access::ReadWrite },
        Reg::TcPgdelay => Register { id: 0x2A, sub_id: 0x000B, len: 1, access: Access::ReadWrite },
        Reg::FsPlltune => Register { id: 0x2B, sub_id: 0x000B, len: 1, access: Access::ReadWrite },
        Reg::OtpAddr => Register { id: 0x2D, sub_id: 0x0004, len: 2, access: Access::ReadWrite },
        Reg::OtpCtrl => Register { id: 0x2D, sub_id: 0x0006, len: 2, access: Access::ReadWrite },
        Reg::OtpRdat => Register { id: 0x2D, sub_id: 0x000A, len: 4, access: Access::ReadOnly },
        Reg::Ldotune => Register { id: 0x2D, sub_id: 0x0030, len: 5, access: Access::ReadWrite },
        Reg::LdeCfg1 => Register { id: 0x2E, sub_id: 0x0806, len: 1, access: Access::ReadWrite },
        Reg::LdeRxantd => Register { id: 0x2E, sub_id: 0x1804, len: 2, access: Access::ReadWrite },
        Reg::LdeCfg2 => Register { id: 0x2E, sub_id: 0x1806, len: 2, access: Access::ReadWrite },
        Reg::EvcCtrl => Register { id: 0x2F, sub_id: 0x0000, len: 4, access: Access::ReadWrite },
        Reg::EvcHpw => Register { id: 0x2F, sub_id: 0x0024, len: 2, access: Access::ReadOnly },
        Reg::EvcTpw => Register { id: 0x2F, sub_id: 0x0026, len: 2, access: Access::ReadOnly },
        Reg::PmscCtrl0 => Register { id: 0x36, sub_id: 0x0000, len: 4, access: Access::ReadWrite },
        Reg::PmscCtrl1 => Register { id: 0x36, sub_id: 0x0004, len: 4, access: Access::ReadWrite },
    }
}

} // verus!
