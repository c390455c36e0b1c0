//! Laws on the settings of channels: rates, timings and what an adapter can do.
use crate::can::bitrate::{
    all_digits, bits_per_second, leading_value, read_decimal, without_part, Decimal, Written,
};
use crate::can::ip_text::is_ip;
use crate::can::pcan::{data_segment, nominal_segment, pcan_fd_bitrate};
use crate::can::zcan::{
    config_fault, endpoint_of, law_accepted_sets, profile_of, validate_channel_set,
    validate_device_config, zcan_driver_channel_type, zcan_profile, zlg_fault, ZcanDeviceProfile,
};
use crate::can::{normalized_baud, DeviceConfig, DeviceConfigView};
use crate::laws::choosing::{lemma_no_char, lemma_not_trimmed};
use crate::laws::texts::law_numerals_read_back;
use crate::text;
use vstd::prelude::*;

verus! {

// ---------------------------------------------------------------- rates

/// Whether a text is made of decimal digits and the letters of rates.
spec fn is_plain(s: Seq<char>) -> bool {
    forall|i: int| 0 <= i < s.len() ==> 48 <= (#[trigger] s[i]) as u32 <= 57 || s[i] == 'K' || s[i] == 'M'
}

proof fn lemma_kept_by_filter(s: Seq<char>)
    requires
        is_plain(s),
    ensures
        text::without(s, ' ') == s,
    decreases s.len(),
{
    reveal(Seq::filter);
    if s.len() > 0 {
        let rest = s.drop_last();
        assert forall|i: int| 0 <= i < rest.len() implies 48 <= (#[trigger] rest[i]) as u32 <= 57
            || rest[i] == 'K' || rest[i] == 'M' by {
            assert(rest[i] == s[i]);
        }
        lemma_kept_by_filter(rest);
        assert(s[s.len() - 1] != ' ');
        assert(rest.push(s.last()) =~= s);
    }
}

proof fn lemma_no_unit(s: Seq<char>)
    requires
        is_plain(s),
    ensures
        without_part(s, "BPS"@) == s,
    decreases s.len(),
{
    reveal_strlit("BPS");
    if s.len() > 0 {
        let rest = s.drop_first();
        assert forall|i: int| 0 <= i < rest.len() implies 48 <= (#[trigger] rest[i]) as u32 <= 57
            || rest[i] == 'K' || rest[i] == 'M' by {
            assert(rest[i] == s[i + 1]);
        }
        lemma_no_unit(rest);
        assert(s[0] != 'B');
        assert(!text::has_prefix(s, "BPS"@)) by {
            if text::has_prefix(s, "BPS"@) {
                assert(s.subrange(0, 3)[0] == 'B');
            }
        }
        assert(seq![s[0]] + rest =~= s);
    }
}

proof fn lemma_plain(s: Seq<char>)
    requires
        s.len() > 0,
        is_plain(s),
    ensures
        without_part(text::without(text::upper(text::trim(s)), ' '), "BPS"@) == s,
{
    assert(!text::is_space(s[0]) && !text::is_space(s[s.len() - 1]));
    lemma_not_trimmed(s);
    assert(text::upper(s) =~= s);
    lemma_kept_by_filter(s);
    lemma_no_unit(s);
}

proof fn lemma_leading(d: Seq<char>, k: int)
    requires
        all_digits(d),
        0 < k <= d.len(),
    ensures
        text::digits_value(d.take(k), 10) == Some(leading_value(d, k)),
    decreases k,
{
    let t = d.take(k);
    assert(t.last() == d[k - 1]);
    assert(text::digit_value(d[k - 1], 10) is Some);
    if k > 1 {
        assert(t.drop_last() =~= d.take(k - 1));
        lemma_leading(d, k - 1);
        assert(leading_value(d, k - 1) * 10 == 10 * leading_value(d, k - 1));
    } else {
        assert(leading_value(d, 0) == 0);
    }
}

pub(crate) proof fn lemma_decimal_digits(n: nat)
    ensures
        text::decimal(n).len() >= 1,
        forall|i: int|
            0 <= i < text::decimal(n).len() ==> 48 <= (#[trigger] text::decimal(n)[i]) as u32 <= 57,
    decreases n,
{
    crate::laws::texts::law_numerals_end_in_their_last_digit(n, 10);
    let s = text::decimal(n);
    if n >= 10 {
        lemma_decimal_digits(n / 10);
        assert forall|i: int| 0 <= i < s.len() implies 48 <= (#[trigger] s[i]) as u32 <= 57 by {
            if i < s.len() - 1 {
                assert(s[i] == s.drop_last()[i]);
            }
        }
    }
}

proof fn lemma_whole_number(n: nat)
    ensures
        read_decimal(text::decimal(n)) == Written::Number(
            Decimal { negative: false, digits: text::decimal(n), point: text::decimal(n).len() as int },
        ),
        leading_value(text::decimal(n), text::decimal(n).len() as int) == n,
{
    let s = text::decimal(n);
    let len = s.len() as int;
    lemma_decimal_digits(n);
    law_numerals_read_back(n, 10);
    reveal_strlit("INF");
    reveal_strlit("INFINITY");
    reveal_strlit("NAN");
    assert(all_digits(s));
    assert(s[0] != '+' && s[0] != '-' && s[0] != 'I' && s[0] != 'N');
    lemma_no_char(s, 'E');
    lemma_no_char(s, '.');
    assert(s.take(len) =~= s);
    assert(s + Seq::<char>::empty() =~= s);
    lemma_leading(s, len);
}

/// A rate is a number of bits per second, of thousands with a `K` and of millions with an `M`.
pub proof fn law_rates_count_bits_per_second(n: nat)
    requires
        n <= u32::MAX,
    ensures
        bits_per_second(text::decimal(n)) == n,
        n <= 4_294_967 ==> bits_per_second(text::decimal(n).push('K')) == n * 1000,
        n <= 4294 ==> bits_per_second(text::decimal(n).push('M')) == n * 1_000_000,
        n > 4294 ==> bits_per_second(text::decimal(n).push('M')) == u32::MAX,
{
    let s = text::decimal(n);
    let len = s.len() as int;
    lemma_decimal_digits(n);
    lemma_whole_number(n);
    law_numerals_read_back(n, 10);
    lemma_plain(s);
    assert(s.last() != 'K' && s.last() != 'M');
    assert(s[0] != '+');
    let k = s.push('K');
    let m = s.push('M');
    assert forall|i: int| 0 <= i < k.len() implies 48 <= (#[trigger] k[i]) as u32 <= 57 || k[i] == 'K'
        || k[i] == 'M' by {
        if i < len {
            assert(k[i] == s[i]);
        }
    }
    assert forall|i: int| 0 <= i < m.len() implies 48 <= (#[trigger] m[i]) as u32 <= 57 || m[i] == 'K'
        || m[i] == 'M' by {
        if i < len {
            assert(m[i] == s[i]);
        }
    }
    lemma_plain(k);
    lemma_plain(m);
    assert(k.drop_last() =~= s);
    assert(m.drop_last() =~= s);
    let a = leading_value(s, len);
    let b = leading_value(s, len + 1);
    let c = leading_value(s, len + 2);
    let d = leading_value(s, len + 3);
    let e = leading_value(s, len + 4);
    let f = leading_value(s, len + 5);
    let g = leading_value(s, len + 6);
    assert(b == 10 * a && c == 10 * b && d == 10 * c && e == 10 * d && f == 10 * e && g == 10 * f);
}

// ---------------------------------------------------------------- what adapters can do

/// A device of each family is known by its number; all but the classic ones can do CAN FD.
pub proof fn law_devices_belong_to_their_family(device_type: &str, r: Option<ZcanDeviceProfile>)
    requires
        call_ensures(zcan_profile, (device_type,), r),
    ensures
        r matches Some(p) ==> {
            let n = p.device_type;
            &&& p.family is UsbClassic <==> n == 3 || n == 4 || n == 20 || n == 21
            &&& p.family is UsbCanFd <==> 41 <= n <= 43 || n == 59
            &&& p.family is NetworkTcp <==> n == 48 || n == 50
            &&& p.family is NetworkUdp <==> n == 49 || n == 51
            &&& p.fd_capable <==> !(p.family is UsbClassic)
        },
{
}

/// The settings of a ZLG channel are accepted where the device can do what they ask for, its rates
/// are numbers, the data phase is no slower than the rest, and a device on the network has an
/// address and a port.
pub proof fn law_zlg_channels_ask_for_what_there_is(cfg: DeviceConfigView, p: ZcanDeviceProfile)
    ensures
        zlg_fault(cfg, p) is None <==> {
            &&& text::trim(cfg.custom_bitrate).len() == 0
            &&& cfg.is_fd ==> p.fd_capable
            &&& cfg.fd_non_iso ==> cfg.is_fd
            &&& bits_per_second(cfg.baud) > 0
            &&& cfg.is_fd ==> bits_per_second(cfg.data_baud) >= bits_per_second(cfg.baud)
            &&& p.family is NetworkTcp || p.family is NetworkUdp ==> {
                &&& is_ip(text::trim(cfg.ip))
                &&& text::unsigned_value(text::trim(cfg.port), 10, 65535) matches Some(n) && n > 0
            }
        },
{
}

/// Nothing is accepted without a number and a device, nor for the virtual bus. PEAK channels are one
/// of sixteen, in the plain mode; GCAN and ZHCX channels are classic ones.
pub proof fn law_accepted_settings_can_be_opened(cfg: &DeviceConfig, r: Result<(), String>)
    requires
        call_ensures(validate_device_config, (cfg,), r),
        r is Ok,
    ensures
        cfg.sw_channel >= 1,
        text::trim(cfg.device_type@).len() > 0,
        text::upper(text::trim(cfg.device_type@)) == "PCAN"@ ==> cfg.channel_index <= 15
            && !cfg.listen_only && !cfg.fd_non_iso,
        text::upper(text::trim(cfg.device_type@)) == "GCAN"@ ==> !cfg.is_fd && !cfg.fd_non_iso
            && text::trim(cfg.custom_bitrate@).len() == 0,
        text::upper(text::trim(cfg.device_type@)) == "ZHCX"@ ==> !cfg.is_fd && !cfg.fd_non_iso,
        text::upper(text::trim(cfg.device_type@)) != "VIRTUAL"@,
        text::upper(text::trim(cfg.device_type@)) != "SIM"@,
{
    reveal_strlit("PCAN");
    reveal_strlit("GCAN");
    reveal_strlit("ZHCX");
    reveal_strlit("ZHCXCAN");
    reveal_strlit("VIRTUAL");
    reveal_strlit("SIM");
    assert("GCAN"@[0] != "PCAN"@[0]);
    assert("ZHCX"@[0] != "PCAN"@[0]);
    assert("GCAN"@.len() != "VIRTUAL"@.len());
}

/// Channels are accepted together where each is accepted, no two have one number and no two are the
/// same hardware.
pub proof fn law_channels_are_accepted_together(
    cfgs: &[DeviceConfig],
    r: Result<(), String>,
    i: int,
    j: int,
)
    requires
        call_ensures(validate_channel_set, (cfgs,), r),
        r is Ok,
        0 <= i < j < cfgs@.len(),
    ensures
        cfgs@[i].sw_channel != cfgs@[j].sw_channel,
        endpoint_of(cfgs@[i]@) != endpoint_of(cfgs@[j]@),
        config_fault(cfgs@[i]@) is None,
{
    let v = crate::can::configs_view(cfgs@);
    assert(v.len() == cfgs@.len());
    assert(v[i] == cfgs@[i]@ && v[j] == cfgs@[j]@);
    law_accepted_sets(v);
}

/// Channels with an identity are the same hardware exactly if it is the same, in small letters or
/// large; without one the device and its channel decide.
pub proof fn law_identities_decide(a: DeviceConfigView, b: DeviceConfigView)
    ensures
        text::trim(a.hardware_id).len() > 0 && text::trim(b.hardware_id).len() > 0 ==> (endpoint_of(a)
            == endpoint_of(b) <==> text::upper(text::trim(a.hardware_id)) == text::upper(
            text::trim(b.hardware_id),
        )),
        text::trim(a.hardware_id).len() == 0 && text::trim(b.hardware_id).len() == 0 && a.device_type
            == b.device_type && a.ip == b.ip && a.port == b.port && endpoint_of(a) == endpoint_of(b)
            ==> (profile_of(a.device_type) matches Some(p) && p.networked()) || a.device_index
            == b.device_index && a.channel_index == b.channel_index,
{
    let device = text::without(text::without(text::upper(text::trim(a.device_type)), ' '), '_');
    let networked = profile_of(a.device_type) matches Some(p) && p.networked();
    if text::trim(a.hardware_id).len() == 0 && text::trim(b.hardware_id).len() == 0 && a.device_type
        == b.device_type && endpoint_of(a) == endpoint_of(b) && !networked {
        reveal_strlit(":");
        let x = text::decimal(a.device_index as nat);
        let y = text::decimal(a.channel_index as nat);
        let u = text::decimal(b.device_index as nat);
        let v = text::decimal(b.channel_index as nat);
        let n = device.len() as int;
        lemma_decimal_digits(a.device_index as nat);
        lemma_decimal_digits(b.device_index as nat);
        law_numerals_read_back(a.device_index as nat, 10);
        law_numerals_read_back(a.channel_index as nat, 10);
        law_numerals_read_back(b.device_index as nat, 10);
        law_numerals_read_back(b.channel_index as nat, 10);
        let s = endpoint_of(a);
        let t = endpoint_of(b);
        assert(s == device + ":"@ + x + ":"@ + y);
        assert(t == device + ":"@ + u + ":"@ + v);
        assert(s[n + 1 + x.len()] == ':');
        assert(t[n + 1 + u.len()] == ':');
        if x.len() < u.len() {
            assert(t[n + 1 + x.len()] == u[x.len() as int]);
        }
        if u.len() < x.len() {
            assert(s[n + 1 + u.len()] == x[u.len() as int]);
        }
        assert(s.subrange(n + 1, n + 1 + x.len()) =~= x);
        assert(t.subrange(n + 1, n + 1 + u.len()) =~= u);
        assert(s.skip(n + 2 + x.len()) =~= y);
        assert(t.skip(n + 2 + u.len()) =~= v);
    }
}

/// A channel of a CAN FD device is opened as such, and one of another device where FD frames are
/// wished.
pub proof fn law_channels_are_opened_by_their_kind(p: ZcanDeviceProfile, fd: bool, r: u8)
    requires
        call_ensures(zcan_driver_channel_type, (p, fd), r),
    ensures
        r == 1 <==> fd || p.family is UsbCanFd,
        r == 0 <==> !fd && !(p.family is UsbCanFd),
{
}

// ---------------------------------------------------------------- timings

/// The text of a nominal timing.
pub open spec fn nominal_text(brp: nat, tseg1: nat, tseg2: nat, sjw: nat) -> Seq<char> {
    "nom_brp="@ + text::decimal(brp) + ",nom_tseg1="@ + text::decimal(tseg1) + ",nom_tseg2="@
        + text::decimal(tseg2) + ",nom_sjw="@ + text::decimal(sjw)
}

/// The text of a data timing.
pub open spec fn data_text(brp: nat, tseg1: nat, tseg2: nat, sjw: nat) -> Seq<char> {
    "data_brp="@ + text::decimal(brp) + ",data_tseg1="@ + text::decimal(tseg1) + ",data_tseg2="@
        + text::decimal(tseg2) + ",data_sjw="@ + text::decimal(sjw)
}

proof fn lemma_one_digit(n: nat)
    requires
        n < 10,
    ensures
        text::decimal(n) == seq![(48 + n) as char],
{
    reveal_with_fuel(text::numeral, 2);
    assert(text::decimal(n) =~= seq![(48 + n) as char]);
}

proof fn lemma_two_digit_numeral(n: nat)
    requires
        10 <= n < 100,
    ensures
        text::decimal(n) == seq![(48 + n / 10) as char, (48 + n % 10) as char],
{
    reveal_with_fuel(text::numeral, 3);
    assert(text::decimal(n) =~= seq![(48 + n / 10) as char, (48 + n % 10) as char]);
}

proof fn lemma_pieces()
    ensures
        "nom_brp="@ == seq!['n', 'o', 'm', '_', 'b', 'r', 'p', '='],
        ",nom_tseg1="@ == seq![',', 'n', 'o', 'm', '_', 't', 's', 'e', 'g', '1', '='],
        ",nom_tseg2="@ == seq![',', 'n', 'o', 'm', '_', 't', 's', 'e', 'g', '2', '='],
        ",nom_sjw="@ == seq![',', 'n', 'o', 'm', '_', 's', 'j', 'w', '='],
        "data_brp="@ == seq!['d', 'a', 't', 'a', '_', 'b', 'r', 'p', '='],
        ",data_tseg1="@ == seq![',', 'd', 'a', 't', 'a', '_', 't', 's', 'e', 'g', '1', '='],
        ",data_tseg2="@ == seq![',', 'd', 'a', 't', 'a', '_', 't', 's', 'e', 'g', '2', '='],
        ",data_sjw="@ == seq![',', 'd', 'a', 't', 'a', '_', 's', 'j', 'w', '='],
{
    reveal_strlit("nom_brp=");
    reveal_strlit(",nom_tseg1=");
    reveal_strlit(",nom_tseg2=");
    reveal_strlit(",nom_sjw=");
    reveal_strlit("data_brp=");
    reveal_strlit(",data_tseg1=");
    reveal_strlit(",data_tseg2=");
    reveal_strlit(",data_sjw=");
    assert("nom_brp="@ =~= seq!['n', 'o', 'm', '_', 'b', 'r', 'p', '=']);
    assert(",nom_tseg1="@ =~= seq![',', 'n', 'o', 'm', '_', 't', 's', 'e', 'g', '1', '=']);
    assert(",nom_tseg2="@ =~= seq![',', 'n', 'o', 'm', '_', 't', 's', 'e', 'g', '2', '=']);
    assert(",nom_sjw="@ =~= seq![',', 'n', 'o', 'm', '_', 's', 'j', 'w', '=']);
    assert("data_brp="@ =~= seq!['d', 'a', 't', 'a', '_', 'b', 'r', 'p', '=']);
    assert(",data_tseg1="@ =~= seq![',', 'd', 'a', 't', 'a', '_', 't', 's', 'e', 'g', '1', '=']);
    assert(",data_tseg2="@ =~= seq![',', 'd', 'a', 't', 'a', '_', 't', 's', 'e', 'g', '2', '=']);
    assert(",data_sjw="@ =~= seq![',', 'd', 'a', 't', 'a', '_', 's', 'j', 'w', '=']);
}

proof fn lemma_nominal_2_31_8()
    ensures
        nominal_text(2, 31, 8, 8) == "nom_brp=2,nom_tseg1=31,nom_tseg2=8,nom_sjw=8"@,
{
    lemma_pieces();
    lemma_one_digit(2);
    lemma_one_digit(8);
    lemma_two_digit_numeral(31);
    reveal_strlit("nom_brp=2,nom_tseg1=31,nom_tseg2=8,nom_sjw=8");
    assert(nominal_text(2, 31, 8, 8) =~= "nom_brp=2,nom_tseg1=31,nom_tseg2=8,nom_sjw=8"@);
}

proof fn lemma_nominal_5_15_4()
    ensures
        nominal_text(5, 15, 4, 4) == "nom_brp=5,nom_tseg1=15,nom_tseg2=4,nom_sjw=4"@,
{
    lemma_pieces();
    lemma_one_digit(4);
    lemma_one_digit(5);
    lemma_two_digit_numeral(15);
    reveal_strlit("nom_brp=5,nom_tseg1=15,nom_tseg2=4,nom_sjw=4");
    assert(nominal_text(5, 15, 4, 4) =~= "nom_brp=5,nom_tseg1=15,nom_tseg2=4,nom_sjw=4"@);
}

proof fn lemma_nominal_2_63_16()
    ensures
        nominal_text(2, 63, 16, 16) == "nom_brp=2,nom_tseg1=63,nom_tseg2=16,nom_sjw=16"@,
{
    lemma_pieces();
    lemma_one_digit(2);
    lemma_two_digit_numeral(16);
    lemma_two_digit_numeral(63);
    reveal_strlit("nom_brp=2,nom_tseg1=63,nom_tseg2=16,nom_sjw=16");
    assert(nominal_text(2, 63, 16, 16) =~= "nom_brp=2,nom_tseg1=63,nom_tseg2=16,nom_sjw=16"@);
}

proof fn lemma_nominal_4_63_16()
    ensures
        nominal_text(4, 63, 16, 16) == "nom_brp=4,nom_tseg1=63,nom_tseg2=16,nom_sjw=16"@,
{
    lemma_pieces();
    lemma_one_digit(4);
    lemma_two_digit_numeral(16);
    lemma_two_digit_numeral(63);
    reveal_strlit("nom_brp=4,nom_tseg1=63,nom_tseg2=16,nom_sjw=16");
    assert(nominal_text(4, 63, 16, 16) =~= "nom_brp=4,nom_tseg1=63,nom_tseg2=16,nom_sjw=16"@);
}

proof fn lemma_nominal_8_63_16()
    ensures
        nominal_text(8, 63, 16, 16) == "nom_brp=8,nom_tseg1=63,nom_tseg2=16,nom_sjw=16"@,
{
    lemma_pieces();
    lemma_one_digit(8);
    lemma_two_digit_numeral(16);
    lemma_two_digit_numeral(63);
    reveal_strlit("nom_brp=8,nom_tseg1=63,nom_tseg2=16,nom_sjw=16");
    assert(nominal_text(8, 63, 16, 16) =~= "nom_brp=8,nom_tseg1=63,nom_tseg2=16,nom_sjw=16"@);
}

proof fn lemma_data_1_7_2()
    ensures
        data_text(1, 7, 2, 2) == "data_brp=1,data_tseg1=7,data_tseg2=2,data_sjw=2"@,
{
    lemma_pieces();
    lemma_one_digit(1);
    lemma_one_digit(2);
    lemma_one_digit(7);
    reveal_strlit("data_brp=1,data_tseg1=7,data_tseg2=2,data_sjw=2");
    assert(data_text(1, 7, 2, 2) =~= "data_brp=1,data_tseg1=7,data_tseg2=2,data_sjw=2"@);
}

proof fn lemma_data_1_12_3()
    ensures
        data_text(1, 12, 3, 3) == "data_brp=1,data_tseg1=12,data_tseg2=3,data_sjw=3"@,
{
    lemma_pieces();
    lemma_one_digit(1);
    lemma_one_digit(3);
    lemma_two_digit_numeral(12);
    reveal_strlit("data_brp=1,data_tseg1=12,data_tseg2=3,data_sjw=3");
    assert(data_text(1, 12, 3, 3) =~= "data_brp=1,data_tseg1=12,data_tseg2=3,data_sjw=3"@);
}

proof fn lemma_data_1_15_4()
    ensures
        data_text(1, 15, 4, 4) == "data_brp=1,data_tseg1=15,data_tseg2=4,data_sjw=4"@,
{
    lemma_pieces();
    lemma_one_digit(1);
    lemma_one_digit(4);
    lemma_two_digit_numeral(15);
    reveal_strlit("data_brp=1,data_tseg1=15,data_tseg2=4,data_sjw=4");
    assert(data_text(1, 15, 4, 4) =~= "data_brp=1,data_tseg1=15,data_tseg2=4,data_sjw=4"@);
}

proof fn lemma_data_2_15_4()
    ensures
        data_text(2, 15, 4, 4) == "data_brp=2,data_tseg1=15,data_tseg2=4,data_sjw=4"@,
{
    lemma_pieces();
    lemma_one_digit(2);
    lemma_one_digit(4);
    lemma_two_digit_numeral(15);
    reveal_strlit("data_brp=2,data_tseg1=15,data_tseg2=4,data_sjw=4");
    assert(data_text(2, 15, 4, 4) =~= "data_brp=2,data_tseg1=15,data_tseg2=4,data_sjw=4"@);
}

proof fn lemma_data_4_15_4()
    ensures
        data_text(4, 15, 4, 4) == "data_brp=4,data_tseg1=15,data_tseg2=4,data_sjw=4"@,
{
    lemma_pieces();
    lemma_one_digit(4);
    lemma_two_digit_numeral(15);
    reveal_strlit("data_brp=4,data_tseg1=15,data_tseg2=4,data_sjw=4");
    assert(data_text(4, 15, 4, 4) =~= "data_brp=4,data_tseg1=15,data_tseg2=4,data_sjw=4"@);
}

proof fn lemma_data_5_15_4()
    ensures
        data_text(5, 15, 4, 4) == "data_brp=5,data_tseg1=15,data_tseg2=4,data_sjw=4"@,
{
    lemma_pieces();
    lemma_one_digit(4);
    lemma_one_digit(5);
    lemma_two_digit_numeral(15);
    reveal_strlit("data_brp=5,data_tseg1=15,data_tseg2=4,data_sjw=4");
    assert(data_text(5, 15, 4, 4) =~= "data_brp=5,data_tseg1=15,data_tseg2=4,data_sjw=4"@);
}

proof fn lemma_data_8_15_4()
    ensures
        data_text(8, 15, 4, 4) == "data_brp=8,data_tseg1=15,data_tseg2=4,data_sjw=4"@,
{
    lemma_pieces();
    lemma_one_digit(4);
    lemma_one_digit(8);
    lemma_two_digit_numeral(15);
    reveal_strlit("data_brp=8,data_tseg1=15,data_tseg2=4,data_sjw=4");
    assert(data_text(8, 15, 4, 4) =~= "data_brp=8,data_tseg1=15,data_tseg2=4,data_sjw=4"@);
}

proof fn lemma_data_16_15_4()
    ensures
        data_text(16, 15, 4, 4) == "data_brp=16,data_tseg1=15,data_tseg2=4,data_sjw=4"@,
{
    lemma_pieces();
    lemma_one_digit(4);
    lemma_two_digit_numeral(15);
    lemma_two_digit_numeral(16);
    reveal_strlit("data_brp=16,data_tseg1=15,data_tseg2=4,data_sjw=4");
    assert(data_text(16, 15, 4, 4) =~= "data_brp=16,data_tseg1=15,data_tseg2=4,data_sjw=4"@);
}

proof fn lemma_data_32_15_4()
    ensures
        data_text(32, 15, 4, 4) == "data_brp=32,data_tseg1=15,data_tseg2=4,data_sjw=4"@,
{
    lemma_pieces();
    lemma_one_digit(4);
    lemma_two_digit_numeral(15);
    lemma_two_digit_numeral(32);
    reveal_strlit("data_brp=32,data_tseg1=15,data_tseg2=4,data_sjw=4");
    assert(data_text(32, 15, 4, 4) =~= "data_brp=32,data_tseg1=15,data_tseg2=4,data_sjw=4"@);
}

/// The rates that have names.
proof fn lemma_named_rates()
    ensures
        bits_per_second("1M"@) == 1_000_000,
        bits_per_second("2M"@) == 2_000_000,
        bits_per_second("4M"@) == 4_000_000,
        bits_per_second("5M"@) == 5_000_000,
        bits_per_second("8M"@) == 8_000_000,
        bits_per_second("125K"@) == 125_000,
        bits_per_second("250K"@) == 250_000,
        bits_per_second("500K"@) == 500_000,
        bits_per_second("800K"@) == 800_000,
        bits_per_second("1000K"@) == 1_000_000,
        bits_per_second("2000K"@) == 2_000_000,
        bits_per_second("4000K"@) == 4_000_000,
        bits_per_second("5000K"@) == 5_000_000,
        bits_per_second("8000K"@) == 8_000_000,
{
    reveal_with_fuel(text::numeral, 5);
    reveal_strlit("1M");
    law_rates_count_bits_per_second(1);
    assert(text::decimal(1).push('M') =~= "1M"@);
    reveal_strlit("2M");
    law_rates_count_bits_per_second(2);
    assert(text::decimal(2).push('M') =~= "2M"@);
    reveal_strlit("4M");
    law_rates_count_bits_per_second(4);
    assert(text::decimal(4).push('M') =~= "4M"@);
    reveal_strlit("5M");
    law_rates_count_bits_per_second(5);
    assert(text::decimal(5).push('M') =~= "5M"@);
    reveal_strlit("8M");
    law_rates_count_bits_per_second(8);
    assert(text::decimal(8).push('M') =~= "8M"@);
    reveal_strlit("125K");
    law_rates_count_bits_per_second(125);
    assert(text::decimal(125).push('K') =~= "125K"@);
    reveal_strlit("250K");
    law_rates_count_bits_per_second(250);
    assert(text::decimal(250).push('K') =~= "250K"@);
    reveal_strlit("500K");
    law_rates_count_bits_per_second(500);
    assert(text::decimal(500).push('K') =~= "500K"@);
    reveal_strlit("800K");
    law_rates_count_bits_per_second(800);
    assert(text::decimal(800).push('K') =~= "800K"@);
    reveal_strlit("1000K");
    law_rates_count_bits_per_second(1000);
    assert(text::decimal(1000).push('K') =~= "1000K"@);
    reveal_strlit("2000K");
    law_rates_count_bits_per_second(2000);
    assert(text::decimal(2000).push('K') =~= "2000K"@);
    reveal_strlit("4000K");
    law_rates_count_bits_per_second(4000);
    assert(text::decimal(4000).push('K') =~= "4000K"@);
    reveal_strlit("5000K");
    law_rates_count_bits_per_second(5000);
    assert(text::decimal(5000).push('K') =~= "5000K"@);
    reveal_strlit("8000K");
    law_rates_count_bits_per_second(8000);
    assert(text::decimal(8000).push('K') =~= "8000K"@);
}

/// A timing of the arbitration divides the clock of 80 MHz into bits of its rate: the prescaler times
/// the parts of a bit, one and the two segments. No jump is longer than the second segment.
pub proof fn law_nominal_timings_give_their_rate(rate: Seq<char>) -> (t: (nat, nat, nat, nat))
    requires
        nominal_segment(rate) is Some,
    ensures
        nominal_segment(rate)->0 == nominal_text(t.0, t.1, t.2, t.3),
        t.0 * (1 + t.1 + t.2) * bits_per_second(rate) == 80_000_000,
        1 <= t.3 <= t.2,
{
    lemma_named_rates();
    if rate == "1M"@ || rate == "1000K"@ {
        lemma_nominal_2_31_8();
        (2, 31, 8, 8)
    } else if rate == "800K"@ {
        lemma_nominal_5_15_4();
        (5, 15, 4, 4)
    } else if rate == "500K"@ {
        lemma_nominal_2_63_16();
        (2, 63, 16, 16)
    } else if rate == "250K"@ {
        lemma_nominal_4_63_16();
        (4, 63, 16, 16)
    } else {
        lemma_nominal_8_63_16();
        (8, 63, 16, 16)
    }
}

/// A timing of the data phase divides the clock of 80 MHz into bits of its rate.
pub proof fn law_data_timings_give_their_rate(rate: Seq<char>) -> (t: (nat, nat, nat, nat))
    requires
        data_segment(rate) is Some,
    ensures
        data_segment(rate)->0 == data_text(t.0, t.1, t.2, t.3),
        t.0 * (1 + t.1 + t.2) * bits_per_second(rate) == 80_000_000,
        1 <= t.3 <= t.2,
{
    lemma_named_rates();
    if rate == "8M"@ || rate == "8000K"@ {
        lemma_data_1_7_2();
        (1, 7, 2, 2)
    } else if rate == "5M"@ || rate == "5000K"@ {
        lemma_data_1_12_3();
        (1, 12, 3, 3)
    } else if rate == "4M"@ || rate == "4000K"@ {
        lemma_data_1_15_4();
        (1, 15, 4, 4)
    } else if rate == "2M"@ || rate == "2000K"@ {
        lemma_data_2_15_4();
        (2, 15, 4, 4)
    } else if rate == "1M"@ || rate == "1000K"@ {
        lemma_data_4_15_4();
        (4, 15, 4, 4)
    } else if rate == "800K"@ {
        lemma_data_5_15_4();
        (5, 15, 4, 4)
    } else if rate == "500K"@ {
        lemma_data_8_15_4();
        (8, 15, 4, 4)
    } else if rate == "250K"@ {
        lemma_data_16_15_4();
        (16, 15, 4, 4)
    } else {
        lemma_data_32_15_4();
        (32, 15, 4, 4)
    }
}

/// A timing is put together from those of its two rates, under the clock that they count on; one
/// that is given in full is taken as it is.
pub proof fn law_timings_hold_both_rates(arb: &str, data: &str, r: Result<String, String>)
    requires
        call_ensures(pcan_fd_bitrate, (arb, data), r),
    ensures
        ({
            let full = text::has_part(normalized_baud(arb@), "F_CLOCK"@) || text::has_part(
                normalized_baud(arb@),
                "NOM_BRP"@,
            );
            let a = nominal_segment(normalized_baud(arb@));
            let d = data_segment(normalized_baud(data@));
            &&& full ==> r is Ok && r->Ok_0@ == arb@
            &&& !full ==> (r is Ok <==> a is Some && d is Some)
            &&& !full && r is Ok ==> r->Ok_0@ == "f_clock=80000000,"@ + a->0 + ","@ + d->0
        }),
{
}

} // verus!
