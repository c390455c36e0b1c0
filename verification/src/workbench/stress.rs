//! The synthetic load with which the workbench is put to the test.
use crate::can::{CanFrame, FrameView};
use crate::text;
use vstd::prelude::*;

verus! {

/// A byte of a frame of the load.
pub open spec fn load_byte(n: u64, i: int) -> u8 {
    if i == 0 {
        ((n as int / 16) % 4) as u8
    } else if i == 1 {
        (n as int % 256) as u8
    } else if i == 2 {
        (n as int / 256 % 256) as u8
    } else if i == 3 {
        ((n * 3) % 256) as u8
    } else if i == 4 {
        ((n * 3) / 256 % 256) as u8
    } else {
        0
    }
}

/// The frame of the load with a number: its multiplexer and two values move with the number.
pub open spec fn load_view(n: u64, t: i64) -> FrameView {
    FrameView {
        t,
        ch: 1,
        tx: false,
        id: (256 + n as int % 16) as u32,
        ext: false,
        fd: true,
        brs: true,
        remote: false,
        error: false,
        data: Seq::new(64, |i: int| load_byte(n, i)),
    }
}

/// The frame of the load with a number.
pub fn load_frame(n: u64, t: i64) -> (r: CanFrame)
    requires
        n <= u64::MAX / 3,
    ensures
        r@ == load_view(n, t),
{
    let mut data: Vec<u8> = Vec::new();
    data.push(((n / 16) % 4) as u8);
    data.push((n % 256) as u8);
    data.push((n / 256 % 256) as u8);
    data.push(((n * 3) % 256) as u8);
    data.push(((n * 3) / 256 % 256) as u8);
    while data.len() < 64
        invariant
            5 <= data@.len() <= 64,
            forall|i: int| 0 <= i < data@.len() ==> #[trigger] data@[i] == load_byte(n, i),
        decreases 64 - data@.len(),
    {
        data.push(0);
    }
    assert(data@ =~= Seq::new(64, |i: int| load_byte(n, i)));
    CanFrame {
        t,
        ch: 1,
        tx: false,
        id: 256 + (n % 16) as u32,
        ext: false,
        fd: true,
        brs: true,
        remote: false,
        error: false,
        data,
    }
}

/// The branches of a message of the load.
pub open spec fn branch_lines(n: int) -> Seq<char>
    decreases n,
{
    if n <= 0 {
        seq![]
    } else {
        branch_lines(n - 1) + " SG_ Branch"@ + text::decimal((n - 1) as nat) + " m"@
            + text::decimal((n - 1) as nat) + " : 24|16@1+ (1,0) [0|65535] \"\" Test\n"@
    }
}

/// The messages of the load up to an identifier.
pub open spec fn message_lines(id: int) -> Seq<char>
    decreases id,
{
    if id <= 256 {
        seq![]
    } else {
        message_lines(id - 1) + "BO_ "@ + text::decimal((id - 1) as nat) + " Load"@ + text::decimal(
            (id - 1) as nat,
        )
            + ": 64 Test\n SG_ Mux M : 0|2@1+ (1,0) [0|3] \"\" Test\n SG_ Value : 8|16@1+ (0.1,0) [0|6553.5] \"V\" Test\n"@
            + branch_lines(4)
    }
}

/// The database of the load.
pub fn load_database() -> (r: String)
    ensures
        r@ == "VERSION \"\"\nNS_ :\nBS_:\nBU_: Test\n"@ + message_lines(272),
{
    let mut out = "VERSION \"\"\nNS_ :\nBS_:\nBU_: Test\n".to_owned();
    let ghost head = out@;
    let mut id: u64 = 256;
    assert(out@ =~= head + message_lines(256));
    while id < 272
        invariant
            256 <= id <= 272,
            out@ == head + message_lines(id as int),
        decreases 272 - id,
    {
        let ghost before = out@;
        out.push_str("BO_ ");
        text::push_decimal(&mut out, id);
        out.push_str(" Load");
        text::push_decimal(&mut out, id);
        out.push_str(
            ": 64 Test\n SG_ Mux M : 0|2@1+ (1,0) [0|3] \"\" Test\n SG_ Value : 8|16@1+ (0.1,0) [0|6553.5] \"V\" Test\n",
        );
        let ghost mid = out@;
        let mut mux: u64 = 0;
        assert(out@ =~= mid + branch_lines(0));
        while mux < 4
            invariant
                mux <= 4,
                out@ == mid + branch_lines(mux as int),
            decreases 4 - mux,
        {
            out.push_str(" SG_ Branch");
            text::push_decimal(&mut out, mux);
            out.push_str(" m");
            text::push_decimal(&mut out, mux);
            out.push_str(" : 24|16@1+ (1,0) [0|65535] \"\" Test\n");
            assert(out@ =~= mid + branch_lines(mux + 1));
            mux += 1;
        }
        assert(out@ =~= head + message_lines(id + 1));
        id += 1;
    }
    out
}

/// Whether every frame of the load is accounted for.
pub fn accounted(produced: u64, accepted: u64, dropped: u64, waiting: u64) -> (r: bool)
    ensures
        r == (produced == accepted + dropped + waiting),
{
    produced as u128 == accepted as u128 + dropped as u128 + waiting as u128
}

/// The sum of some numbers.
pub open spec fn total(v: Seq<u64>) -> nat
    decreases v.len(),
{
    if v.len() == 0 {
        0
    } else {
        total(v.drop_last()) + v.last() as nat
    }
}

proof fn lemma_total(v: Seq<u64>)
    ensures
        total(v) <= v.len() * 0xFFFF_FFFF_FFFF_FFFF,
    decreases v.len(),
{
    if v.len() > 0 {
        lemma_total(v.drop_last());
        assert(v.len() * 0xFFFF_FFFF_FFFF_FFFF == (v.len() - 1) * 0xFFFF_FFFF_FFFF_FFFF
            + 0xFFFF_FFFF_FFFF_FFFF) by (nonlinear_arith);
    }
}

/// Whether every frame that the phases of the load accepted was recorded.
pub fn recording_complete(recorded: Option<u64>, accepted: &[u64]) -> (r: bool)
    ensures
        r == (recorded matches Some(n) && n == total(accepted@)),
{
    let count: usize = accepted.len();
    let mut sum: u128 = 0;
    let mut i: usize = 0;
    assert(accepted@.take(0) =~= Seq::<u64>::empty());
    while i < count
        invariant
            i <= count == accepted@.len(),
            sum == total(accepted@.take(i as int)),
        decreases accepted@.len() - i,
    {
        proof {
            assert(accepted@.take(i + 1).drop_last() =~= accepted@.take(i as int));
            lemma_total(accepted@.take(i + 1));
            assert((i + 1) * 0xFFFF_FFFF_FFFF_FFFF <= 0xFFFF_FFFF_FFFF_FFFF
                * 0xFFFF_FFFF_FFFF_FFFF) by (nonlinear_arith)
                requires
                    i + 1 <= 0xFFFF_FFFF_FFFF_FFFF,
            ;
        }
        sum = sum + accepted[i] as u128;
        i += 1;
    }
    assert(accepted@.take(i as int) =~= accepted@);
    match recorded {
        Some(n) => n as u128 == sum,
        None => false,
    }
}

/// What is wrong with a recording that is not complete.
pub fn recording_outcome(complete: bool) -> (r: Result<(), String>)
    ensures
        r is Ok <==> complete,
        r matches Err(m) ==> m@ == "recording incomplete: see report.json"@,
{
    if complete {
        Ok(())
    } else {
        Err("recording incomplete: see report.json".to_owned())
    }
}

/// The place, among measurements in order, of the one that 95 of a hundred do not exceed.
pub fn percentile_index(count: usize) -> (r: usize)
    requires
        0 < count <= usize::MAX / 95,
    ensures
        r == count * 95 / 100,
        r < count,
{
    count * 95 / 100
}

} // verus!
