//! The driver calls that open a channel of a ZLG adapter, and those that bring it back after Bus-Off.
use crate::can::vci::DriverCall;
use crate::can::zcan_bus::{open_check, ZcanFdBus, ZcanOpenCheck, ZcanOpening};
use crate::can::PollReport;
use vstd::prelude::*;

verus! {

/// A call into the driver on the way to an open channel.
#[derive(Clone, Copy, Debug, PartialEq, Eq, Structural)]
pub enum ZcanCall {
    /// `ZCAN_SetValue` with the property at this place.
    SetProperty(usize),
    /// `ZCAN_GetValue` of the bit rate, for the name of the channel.
    ReadRate,
    /// `ZCAN_InitCAN`; a channel handle counts as one, none as zero.
    Initialize,
    /// `ZCAN_ResetCAN`: clears what an earlier bit rate left behind.
    Reset,
    /// `ZCAN_ClearBuffer`.
    Clear,
    /// `ZCAN_SetValue` with the terminating resistor.
    Terminate,
    /// `ZCAN_StartCAN`.
    Start,
    /// `ZCAN_ResetCAN` of a channel that could not be started.
    ResetUnstarted,
    /// `ZCAN_ClearBuffer` of the started channel.
    ClearStarted,
    /// `ZCAN_IsDeviceOnLine`.
    QueryOnline,
}

/// What follows a call.
#[derive(Debug)]
pub enum ZcanOpenNext {
    Call(ZcanCall),
    /// The channel is open.
    Opened,
    Failed(String),
}

impl ZcanOpening {
    /// The first call from a property on: properties come first, then the bit rate is read back
    /// where that is wanted, then the channel is initialised.
    pub open spec fn call_from(&self, i: int) -> ZcanCall {
        if i < self.properties@.len() {
            ZcanCall::SetProperty(i as usize)
        } else if self.reads_back_rate {
            ZcanCall::ReadRate
        } else {
            ZcanCall::Initialize
        }
    }

    /// The call that follows one that went well; none behind the last.
    pub open spec fn call_after(&self, made: ZcanCall) -> Option<ZcanCall> {
        match made {
            ZcanCall::SetProperty(i) => Some(self.call_from(i + 1)),
            ZcanCall::ReadRate => Some(ZcanCall::Initialize),
            ZcanCall::Initialize => Some(ZcanCall::Reset),
            ZcanCall::Reset => Some(ZcanCall::Clear),
            ZcanCall::Clear => Some(
                if self.termination is Some {
                    ZcanCall::Terminate
                } else {
                    ZcanCall::Start
                },
            ),
            ZcanCall::Terminate => Some(ZcanCall::Start),
            ZcanCall::Start => Some(ZcanCall::ClearStarted),
            ZcanCall::ClearStarted => Some(ZcanCall::QueryOnline),
            ZcanCall::QueryOnline => None,
            ZcanCall::ResetUnstarted => None,
        }
    }

    /// What is wrong after a call. Resetting, clearing, terminating and reading back may fail, and
    /// a driver need not tell whether the device is online.
    pub open spec fn call_fault(&self, made: ZcanCall, answer: DriverCall) -> Option<Seq<char>> {
        match made {
            ZcanCall::SetProperty(i) => match answer {
                DriverCall::Missing(e) => Some("ZCAN_SetValue"@ + " 未找到: "@ + e@),
                DriverCall::Returned(v) => if i < self.properties@.len()
                    && self.properties@[i as int].required && v != 1 {
                    Some(
                        "设置 "@ + self.properties@[i as int].key@ + "="@
                            + self.properties@[i as int].value@ + " 失败"@,
                    )
                } else {
                    None
                },
            },
            ZcanCall::Initialize => match answer {
                DriverCall::Missing(e) => Some("ZCAN_InitCAN"@ + " 未找到: "@ + e@),
                DriverCall::Returned(v) => if v == 0 {
                    Some("ZCAN_InitCAN 失败"@)
                } else {
                    None
                },
            },
            ZcanCall::Start => match answer {
                DriverCall::Missing(e) => Some("ZCAN_StartCAN"@ + " 未找到: "@ + e@),
                DriverCall::Returned(_) => None,
            },
            ZcanCall::ResetUnstarted => Some("ZCAN_StartCAN 失败"@),
            ZcanCall::QueryOnline => if answer == DriverCall::Returned(0) {
                Some("ZLG 设备打开后报告离线，请检查 USB、驱动和设备占用状态"@)
            } else {
                None
            },
            _ => None,
        }
    }

    fn next_from(&self, i: usize) -> (r: ZcanCall)
        ensures
            r == self.call_from(i as int),
    {
        if i < self.properties.len() {
            ZcanCall::SetProperty(i)
        } else if self.reads_back_rate {
            ZcanCall::ReadRate
        } else {
            ZcanCall::Initialize
        }
    }

    /// The first call.
    pub fn begin(&self) -> (r: ZcanCall)
        ensures
            r == self.call_from(0),
    {
        self.next_from(0)
    }

    /// Takes the answer to a call. A channel that could not be started is reset before opening
    /// fails.
    pub fn after_call(&self, made: ZcanCall, answer: DriverCall) -> (r: ZcanOpenNext)
        ensures
            match self.call_fault(made, answer) {
                Some(fault) => r matches ZcanOpenNext::Failed(m) && m@ == fault,
                None => if made == ZcanCall::Start && answer != DriverCall::Returned(1) {
                    r == ZcanOpenNext::Call(ZcanCall::ResetUnstarted)
                } else {
                    match self.call_after(made) {
                        Some(next) => r == ZcanOpenNext::Call(next),
                        None => r is Opened,
                    }
                },
            },
    {
        match made {
            ZcanCall::SetProperty(i) => {
                let v: u32 = match answer {
                    DriverCall::Missing(e) => {
                        return ZcanOpenNext::Failed(missing("ZCAN_SetValue", e));
                    },
                    DriverCall::Returned(v) => v,
                };
                if i >= self.properties.len() {
                    return ZcanOpenNext::Call(self.next_from(self.properties.len()));
                }
                match self.properties[i].set_outcome(v) {
                    Ok(()) => ZcanOpenNext::Call(self.next_from(i + 1)),
                    Err(m) => ZcanOpenNext::Failed(m),
                }
            },
            ZcanCall::ReadRate => ZcanOpenNext::Call(ZcanCall::Initialize),
            ZcanCall::Initialize => match answer {
                DriverCall::Missing(e) => ZcanOpenNext::Failed(missing("ZCAN_InitCAN", e)),
                DriverCall::Returned(v) => match open_check(ZcanOpenCheck::Initialized(v != 0)) {
                    Ok(()) => ZcanOpenNext::Call(ZcanCall::Reset),
                    Err(m) => ZcanOpenNext::Failed(m),
                },
            },
            ZcanCall::Reset => ZcanOpenNext::Call(ZcanCall::Clear),
            ZcanCall::Clear => ZcanOpenNext::Call(
                if self.termination.is_some() {
                    ZcanCall::Terminate
                } else {
                    ZcanCall::Start
                },
            ),
            ZcanCall::Terminate => ZcanOpenNext::Call(ZcanCall::Start),
            ZcanCall::Start => match answer {
                DriverCall::Missing(e) => ZcanOpenNext::Failed(missing("ZCAN_StartCAN", e)),
                DriverCall::Returned(v) => if v == 1 {
                    ZcanOpenNext::Call(ZcanCall::ClearStarted)
                } else {
                    ZcanOpenNext::Call(ZcanCall::ResetUnstarted)
                },
            },
            ZcanCall::ResetUnstarted => match open_check(ZcanOpenCheck::Started(0)) {
                Ok(()) => ZcanOpenNext::Opened,
                Err(m) => ZcanOpenNext::Failed(m),
            },
            ZcanCall::ClearStarted => ZcanOpenNext::Call(ZcanCall::QueryOnline),
            ZcanCall::QueryOnline => match answer {
                DriverCall::Missing(_) => ZcanOpenNext::Opened,
                DriverCall::Returned(v) => match open_check(ZcanOpenCheck::Online(v)) {
                    Ok(()) => ZcanOpenNext::Opened,
                    Err(m) => ZcanOpenNext::Failed(m),
                },
            },
        }
    }

    /// The place of a call in the order of all calls.
    pub open spec fn place(&self, call: ZcanCall) -> int {
        let n = self.properties@.len() as int;
        match call {
            ZcanCall::SetProperty(i) => if i < n {
                i as int
            } else {
                n - 1
            },
            ZcanCall::ReadRate => n,
            ZcanCall::Initialize => n + 1,
            ZcanCall::Reset => n + 2,
            ZcanCall::Clear => n + 3,
            ZcanCall::Terminate => n + 4,
            ZcanCall::Start => n + 5,
            ZcanCall::ResetUnstarted => n + 6,
            ZcanCall::ClearStarted => n + 7,
            ZcanCall::QueryOnline => n + 8,
        }
    }
}

/// Calls follow in one order, each later than the one before it, so that opening ends: properties
/// are set before a channel is initialised, and it is reset and cleared before it is started.
pub proof fn law_opening_calls_keep_their_order(opening: ZcanOpening, made: ZcanCall)
    ensures
        opening.call_after(made) matches Some(next) ==> opening.place(made) < opening.place(next),
        opening.place(ZcanCall::Start) < opening.place(ZcanCall::ResetUnstarted),
        opening.place(made) <= opening.properties@.len() + 8,
{
    let n: usize = opening.properties.len();
    assert(n == opening.properties@.len());
}

fn missing(entry: &str, error: String) -> (r: String)
    ensures
        r@ == entry@ + " 未找到: "@ + error@,
{
    let mut message = entry.to_owned();
    message.push_str(" 未找到: ");
    message.push_str(error.as_str());
    message
}

// ---------------------------------------------------------------- recovery

/// A call of a recovery, in the order in which they are made.
#[derive(Clone, Copy, Debug, PartialEq, Eq, Structural)]
pub enum RecoveryCall {
    /// `ZCAN_ResetCAN`.
    Reset,
    /// `ZCAN_ClearBuffer`.
    Clear,
    /// `ZCAN_StartCAN`.
    Start,
}

/// A recovery under way: the report that asked for it, the call to be made now, and whether all
/// calls before it succeeded.
#[derive(Debug)]
pub struct ZcanRecovery {
    pub report: PollReport,
    pub call: RecoveryCall,
    pub fine: bool,
}

/// What follows a call of a recovery.
#[derive(Debug)]
pub enum RecoveryNext {
    Call(ZcanRecovery),
    Done(PollReport),
}

impl ZcanRecovery {
    /// A recovery that begins.
    pub fn begin(report: PollReport) -> (r: ZcanRecovery)
        ensures
            r == (ZcanRecovery { report, call: RecoveryCall::Reset, fine: true }),
    {
        ZcanRecovery { report, call: RecoveryCall::Reset, fine: true }
    }

    /// Takes the answer to the call. All three calls are made whatever comes of them; the channel
    /// has recovered where each of them succeeded.
    pub fn answered(self, answer: DriverCall) -> (r: RecoveryNext)
        ensures
            ({
                let fine = self.fine && answer == DriverCall::Returned(1);
                match self.call {
                    RecoveryCall::Reset => r == RecoveryNext::Call(
                        ZcanRecovery { report: self.report, call: RecoveryCall::Clear, fine },
                    ),
                    RecoveryCall::Clear => r == RecoveryNext::Call(
                        ZcanRecovery { report: self.report, call: RecoveryCall::Start, fine },
                    ),
                    RecoveryCall::Start => r matches RecoveryNext::Done(report)
                        && ZcanFdBus::recovery_reported(self.report, fine, report),
                }
            }),
    {
        let succeeded: bool = match answer {
            DriverCall::Returned(v) => v == 1,
            DriverCall::Missing(_) => false,
        };
        let fine: bool = self.fine && succeeded;
        match self.call {
            RecoveryCall::Reset => RecoveryNext::Call(
                ZcanRecovery { report: self.report, call: RecoveryCall::Clear, fine },
            ),
            RecoveryCall::Clear => RecoveryNext::Call(
                ZcanRecovery { report: self.report, call: RecoveryCall::Start, fine },
            ),
            RecoveryCall::Start => RecoveryNext::Done(
                ZcanFdBus::after_recovery(self.report, fine),
            ),
        }
    }
}

} // verus!
