//! The calls that bring a channel of an older driver into service, at the start and after Bus-Off.
use crate::can::vci::{call_outcome, init_settings, DriverCall, VciBus};
use crate::can::zlg_ffi::{VCI_CAN_STATUS, VCI_INIT_CONFIG};
use vstd::prelude::*;

verus! {

/// A call into the driver for one channel.
#[derive(Clone, Copy, Debug)]
pub enum SetupCall {
    Reset,
    Init(VCI_INIT_CONFIG),
    Start,
    ClearBuffer,
}

/// What follows a call.
#[derive(Debug)]
pub enum SetupNext {
    Call(SetupCall),
    /// The channel is in service, or the call that failed.
    Ended(Result<(), String>),
}

/// The name of the entry point of a call.
pub open spec fn entry_name(call: SetupCall) -> Seq<char> {
    match call {
        SetupCall::Reset => "ResetCAN"@,
        SetupCall::Init(_) => "InitCAN"@,
        SetupCall::Start => "StartCAN"@,
        SetupCall::ClearBuffer => "ClearBuffer"@,
    }
}

/// How the failure of a call is worded.
pub open spec fn failure_text(recovering: bool, call: SetupCall) -> Seq<char> {
    if recovering && call != SetupCall::Reset {
        " 恢复失败"@
    } else {
        " 失败"@
    }
}

impl VciBus {
    /// The first call: a channel is initialised, and reset before that when it recovers.
    pub fn begin_setup(&self, recovering: bool) -> (r: SetupCall)
        ensures
            r == if recovering {
                SetupCall::Reset
            } else {
                SetupCall::Init(init_settings(self.timing0, self.timing1, self.listen_only))
            },
    {
        if recovering {
            SetupCall::Reset
        } else {
            SetupCall::Init(self.settings())
        }
    }

    /// The call that follows a successful one; none after the last.
    pub open spec fn setup_after(&self, made: SetupCall) -> Option<SetupCall> {
        match made {
            SetupCall::Reset => Some(
                SetupCall::Init(init_settings(self.timing0, self.timing1, self.listen_only)),
            ),
            SetupCall::Init(_) => Some(SetupCall::Start),
            SetupCall::Start => Some(SetupCall::ClearBuffer),
            SetupCall::ClearBuffer => None,
        }
    }

    /// Takes what came of a call. A failed call ends the sequence, except that clearing the
    /// buffer may fail.
    pub fn after_setup_call(&self, recovering: bool, made: SetupCall, call: DriverCall) -> (r:
        SetupNext)
        ensures
            match self.setup_after(made) {
                None => r matches SetupNext::Ended(Ok(_)),
                Some(next) => match call {
                    DriverCall::Missing(error) => r matches SetupNext::Ended(Err(m)) && m@
                        == self.prefix@ + entry_name(made) + " 未找到: "@ + error@,
                    DriverCall::Returned(value) => if value == 1 {
                        r == SetupNext::Call(next)
                    } else {
                        r matches SetupNext::Ended(Err(m)) && m@ == self.prefix@ + entry_name(made)
                            + failure_text(recovering, made)
                    },
                },
            },
    {
        let prefix = self.prefix.as_str();
        let (outcome, next) = match made {
            SetupCall::Reset => (
                call_outcome(prefix, "ResetCAN", " 失败", call),
                SetupCall::Init(self.settings()),
            ),
            SetupCall::Init(_) => (
                call_outcome(prefix, "InitCAN", if recovering {
                    " 恢复失败"
                } else {
                    " 失败"
                }, call),
                SetupCall::Start,
            ),
            SetupCall::Start => (
                call_outcome(prefix, "StartCAN", if recovering {
                    " 恢复失败"
                } else {
                    " 失败"
                }, call),
                SetupCall::ClearBuffer,
            ),
            SetupCall::ClearBuffer => return SetupNext::Ended(Ok(())),
        };
        match outcome {
            Ok(_) => SetupNext::Call(next),
            Err(message) => SetupNext::Ended(Err(message)),
        }
    }

    /// Takes what came of reading the device's board: one that does not answer is gone.
    pub fn device_present(&self, call: DriverCall) -> (r: Result<(), String>)
        ensures
            match call {
                DriverCall::Missing(error) => r matches Err(m) && m@ == self.prefix@
                    + "ReadBoardInfo"@ + " 未找到: "@ + error@,
                DriverCall::Returned(value) => if value == 1 {
                    r is Ok
                } else {
                    r matches Err(m) && m@ == self.prefix@
                        + "设备物理连接已丢失（ReadBoardInfo 失败）"@
                },
            },
    {
        match call {
            DriverCall::Returned(value) if value != 1 => {
                let mut message = self.prefix.clone();
                message.push_str("设备物理连接已丢失（ReadBoardInfo 失败）");
                Err(message)
            },
            other => call_outcome(self.prefix.as_str(), "ReadBoardInfo", "", other),
        }
    }

    /// Takes what came of reading the status registers: a driver without that entry point tells
    /// nothing, which is no failure.
    pub fn channel_status(&self, call: DriverCall, status: VCI_CAN_STATUS) -> (r: Result<
        Option<VCI_CAN_STATUS>,
        String,
    >)
        ensures
            match call {
                DriverCall::Missing(_) => r == Ok::<Option<VCI_CAN_STATUS>, String>(None),
                DriverCall::Returned(value) => if value == 1 {
                    r == Ok::<Option<VCI_CAN_STATUS>, String>(Some(status))
                } else {
                    r matches Err(m) && m@ == self.prefix@ + "ReadCANStatus 失败"@
                },
            },
    {
        match call {
            DriverCall::Missing(_) => Ok(None),
            DriverCall::Returned(value) => if value == 1 {
                Ok(Some(status))
            } else {
                let mut message = self.prefix.clone();
                message.push_str("ReadCANStatus 失败");
                Err(message)
            },
        }
    }
}

/// How many calls follow a call at most.
pub open spec fn calls_left(made: SetupCall) -> nat {
    match made {
        SetupCall::Reset => 3,
        SetupCall::Init(_) => 2,
        SetupCall::Start => 1,
        SetupCall::ClearBuffer => 0,
    }
}

/// Bringing a channel into service ends: each call leaves fewer to be made.
pub proof fn law_setup_ends(bus: VciBus, made: SetupCall)
    ensures
        bus.setup_after(made) matches Some(next) ==> calls_left(next) < calls_left(made),
{
}

} // verus!
