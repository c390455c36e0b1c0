//! Projects: the channels that are taken over, the list of recent ones, and stored settings.
use crate::can::zcan::{set_fault, validate_channel_set};
use crate::can::{configs_view, DeviceConfig};
use crate::order::{insert_key, keys_view, sorted_keys, Key};
use crate::text;
use crate::workbench::channels::{copy_configs, ChannelList};
use vstd::prelude::*;

verus! {

/// A selection within a number of entries, and zero where there are none.
pub open spec fn within(selected: int, count: int) -> int {
    if selected < 0 || count <= 0 {
        0
    } else if selected >= count {
        count - 1
    } else {
        selected
    }
}

/// A selection within a number of entries.
pub fn clamp_selection(selected: i32, count: usize) -> (r: i32)
    requires
        count <= i32::MAX,
    ensures
        r == within(selected as int, count as int),
{
    if selected < 0 || count == 0 {
        0
    } else if selected >= count as i32 {
        count as i32 - 1
    } else {
        selected
    }
}

/// Takes over the channels that are being edited, where they make a valid set. The number of
/// channels.
pub fn commit_channel_edit(list: &mut ChannelList) -> (r: Result<usize, String>)
    requires
        old(list).shown().len() <= i32::MAX,
    ensures
        ({
            let edited = configs_view(old(list).shown());
            match r {
                Ok(n) => {
                    &&& set_fault(edited) is None
                    &&& n == edited.len()
                    &&& configs_view(final(list).channels@) == edited
                    &&& final(list).selected == within(old(list).chosen() as int, edited.len() as int)
                    &&& final(list).edit is Some
                    &&& configs_view(final(list).edit->0.channels@) == edited
                    &&& final(list).edit->0.selected == final(list).selected
                    &&& !final(list).edit->0.dirty
                },
                Err(m) => {
                    &&& set_fault(edited) == Some(m@)
                    &&& final(list).channels == old(list).channels
                    &&& final(list).selected == old(list).selected
                    &&& final(list).edit is Some
                    &&& configs_view(final(list).edit->0.channels@) == edited
                    &&& final(list).edit->0.selected == old(list).chosen()
                    &&& final(list).edit->0.dirty == (old(list).edit is Some
                        && old(list).edit->0.dirty)
                },
            }
        }),
{
    list.ensure_channel_edit_session();
    let ghost edited = configs_view(list.edit->0.channels@);
    let taken = list.edit.take();
    match taken {
        Some(session) => {
            let mut session = session;
            assert(configs_view(session.channels@).len() == session.channels@.len());
            assert(configs_view(old(list).shown()).len() == old(list).shown().len());
            let checked = validate_channel_set(session.channels.as_slice());
            match checked {
                Err(m) => {
                    list.edit = Some(session);
                    Err(m)
                },
                Ok(()) => {
                    let n: usize = session.channels.len();
                    list.channels = copy_configs(session.channels.as_slice());
                    list.selected = clamp_selection(session.selected, n);
                    session.selected = list.selected;
                    session.dirty = false;
                    list.edit = Some(session);
                    Ok(n)
                },
            }
        },
        None => Ok(0),
    }
}

/// The device that the workbench works with once channels were taken over: that of the first one.
/// Its bit rate is the one that is shown.
pub fn device_in_use(channels: &[DeviceConfig]) -> (r: Option<(String, DeviceConfig)>)
    ensures
        match r {
            Some((baud, device)) => channels@.len() > 0 && device@ == channels@[0]@ && baud@
                == channels@[0].baud@,
            None => channels@.len() == 0,
        },
{
    if channels.len() == 0 {
        None
    } else {
        Some((channels[0].baud.clone(), channels[0].clone()))
    }
}

// ---------------------------------------------------------------- recent projects

/// Projects that are remembered.
pub const RECENT_LIMIT: usize = 12;

/// The entries of a list that are not a given path, whatever its case.
pub open spec fn others(list: Seq<Seq<char>>, path: Seq<char>) -> Seq<Seq<char>>
    decreases list.len(),
{
    if list.len() == 0 {
        seq![]
    } else {
        let before = others(list.drop_last(), path);
        if text::upper(list.last()) == text::upper(path) {
            before
        } else {
            before.push(list.last())
        }
    }
}

/// The list with a path in front, as long as it may be.
pub open spec fn touched(list: Seq<Seq<char>>, path: Seq<char>) -> Seq<Seq<char>> {
    let all = seq![path] + others(list, path);
    if all.len() > RECENT_LIMIT {
        all.take(RECENT_LIMIT as int)
    } else {
        all
    }
}

/// Puts a path in front of the recent projects.
pub fn touch_recent_project(list: &mut Vec<String>, path: &str)
    ensures
        text::texts(final(list)@) == touched(text::texts(old(list)@), path@),
{
    let ghost all = text::texts(list@);
    let mut out: Vec<String> = Vec::new();
    out.push(path.to_owned());
    assert(text::texts(out@) =~= seq![path@]);
    let mut i: usize = 0;
    assert(all.take(0) =~= seq![]);
    assert(seq![path@] + others(all.take(0), path@) =~= seq![path@]);
    while i < list.len()
        invariant
            i <= list@.len(),
            list@ == old(list)@,
            all == text::texts(list@),
            text::texts(out@) == seq![path@] + others(all.take(i as int), path@),
        decreases list@.len() - i,
    {
        let ghost before = out@;
        assert(all.take(i + 1).drop_last() =~= all.take(i as int));
        assert(all.take(i + 1).last() == list@[i as int]@);
        if !text::same_ignoring_case(list[i].as_str(), path) {
            out.push(list[i].clone());
            assert(text::texts(out@) =~= text::texts(before).push(list@[i as int]@));
            assert(text::texts(out@) =~= seq![path@] + others(all.take(i + 1), path@));
        }
        i += 1;
    }
    assert(all.take(i as int) =~= all);
    let ghost whole = text::texts(out@);
    if out.len() > RECENT_LIMIT {
        out.truncate(RECENT_LIMIT);
    }
    assert(text::texts(out@) =~= touched(all, path@));
    *list = out;
}

proof fn lemma_others(list: Seq<Seq<char>>, path: Seq<char>)
    ensures
        forall|i: int|
            0 <= i < others(list, path).len() ==> text::upper(#[trigger] others(list, path)[i])
                != text::upper(path),
    decreases list.len(),
{
    if list.len() > 0 {
        lemma_others(list.drop_last(), path);
        let before = others(list.drop_last(), path);
        let all = others(list, path);
        assert forall|i: int| 0 <= i < all.len() implies text::upper(#[trigger] all[i])
            != text::upper(path) by {
            if i < before.len() {
                assert(all[i] == before[i]);
            }
        }
    }
}

/// The recent projects are at most twelve, the last one used comes first, and it is listed once.
pub proof fn law_recent_projects(list: Seq<Seq<char>>, path: Seq<char>)
    ensures
        0 < touched(list, path).len() <= 12,
        touched(list, path)[0] == path,
        forall|i: int|
            0 < i < touched(list, path).len() ==> text::upper(#[trigger] touched(list, path)[i])
                != text::upper(path),
{
    lemma_others(list, path);
    let all = seq![path] + others(list, path);
    assert forall|i: int| 0 < i < touched(list, path).len() implies text::upper(
        #[trigger] touched(list, path)[i],
    ) != text::upper(path) by {
        assert(touched(list, path)[i] == others(list, path)[i - 1]);
    }
}

// ---------------------------------------------------------------- settings

/// The keys of some names.
pub open spec fn name_keys(names: Seq<Seq<char>>) -> Seq<Key> {
    names.map_values(|n: Seq<char>| (0u32, n))
}

/// The texts of some keys.
pub open spec fn key_texts(keys: Seq<Key>) -> Seq<Seq<char>> {
    keys.map_values(|k: Key| k.1)
}

/// The names of hidden columns as they are stored: in order, each once.
pub fn hidden_columns_text(names: &[String]) -> (r: String)
    ensures
        r@ == text::joined(key_texts(sorted_keys(name_keys(text::texts(names@)))), ","@),
{
    let ghost all = name_keys(text::texts(names@));
    let mut keys: Vec<(u32, Vec<char>)> = Vec::new();
    let mut i: usize = 0;
    assert(all.take(0) =~= seq![]);
    assert(keys_view(keys@) =~= sorted_keys(all.take(0)));
    while i < names.len()
        invariant
            i <= names@.len(),
            all == name_keys(text::texts(names@)),
            keys_view(keys@) == sorted_keys(all.take(i as int)),
        decreases names@.len() - i,
    {
        assert(all.take(i + 1).drop_last() =~= all.take(i as int));
        assert(all.take(i + 1).last() == (0u32, names@[i as int]@));
        let chars = text::chars_of(names[i].as_str());
        insert_key(&mut keys, 0, chars);
        i += 1;
    }
    assert(all.take(i as int) =~= all);
    let ghost sorted = key_texts(keys_view(keys@));
    let mut parts: Vec<String> = Vec::new();
    let mut k: usize = 0;
    while k < keys.len()
        invariant
            k <= keys@.len(),
            sorted == key_texts(keys_view(keys@)),
            text::texts(parts@) =~= sorted.take(k as int),
        decreases keys@.len() - k,
    {
        let ghost before = parts@;
        parts.push(text::string_of(keys[k].1.as_slice()));
        assert(text::texts(parts@) =~= text::texts(before).push(sorted[k as int]));
        k += 1;
    }
    assert(sorted.take(k as int) =~= sorted);
    text::join(parts.as_slice(), ",")
}

/// The parts of a text that hold something, without the white space around them.
pub open spec fn filled_parts(parts: Seq<Seq<char>>) -> Seq<Seq<char>>
    decreases parts.len(),
{
    if parts.len() == 0 {
        seq![]
    } else {
        let before = filled_parts(parts.drop_last());
        let last = text::trim(parts.last());
        if last.len() > 0 {
            before.push(last)
        } else {
            before
        }
    }
}

/// The names of hidden columns in a stored text.
pub fn hidden_columns(stored: &str) -> (r: Vec<String>)
    ensures
        text::texts(r@) == filled_parts(text::split(stored@, ',')),
{
    let chars = text::chars_of(stored);
    let parts = text::split_chars(chars.as_slice(), ',');
    let ghost all = text::split(stored@, ',');
    let mut out: Vec<String> = Vec::new();
    let mut i: usize = 0;
    assert(all.take(0) =~= seq![]);
    assert(text::texts(out@) =~= filled_parts(all.take(0)));
    while i < parts.len()
        invariant
            i <= parts@.len(),
            text::views(parts@) == all,
            text::texts(out@) == filled_parts(all.take(i as int)),
        decreases parts@.len() - i,
    {
        let ghost before = out@;
        assert(all.take(i + 1).drop_last() =~= all.take(i as int));
        assert(all.take(i + 1).last() == parts@[i as int]@);
        let bare = text::trim_chars(parts[i].as_slice());
        if bare.len() > 0 {
            out.push(text::string_of(bare.as_slice()));
            assert(text::texts(out@) =~= text::texts(before).push(bare@));
        }
        i += 1;
    }
    assert(all.take(i as int) =~= all) by {
        assert(text::views(parts@).len() == parts@.len());
    }
    out
}

/// The stored identifier of the console: none where it is negative.
pub fn console_target(stored: i64) -> (r: Option<u32>)
    ensures
        r == if stored < 0 {
            None::<u32>
        } else {
            Some((stored as int % 0x1_0000_0000) as u32)
        },
{
    if stored < 0 {
        None
    } else {
        Some((stored % 0x1_0000_0000) as u32)
    }
}

/// The stored channel of the console, within the channels there are.
pub fn console_channel(stored: i32) -> (r: u8)
    ensures
        r == if stored < 0 {
            0int
        } else if stored > 255 {
            255
        } else {
            stored as int
        },
{
    if stored < 0 {
        0
    } else if stored > 255 {
        255
    } else {
        stored as u8
    }
}

/// A stored limit, or the one in force where the stored one is below what is sensible.
pub fn restored_limit(stored: usize, least: usize, current: usize) -> (r: usize)
    ensures
        r == if stored >= least {
            stored
        } else {
            current
        },
{
    if stored >= least {
        stored
    } else {
        current
    }
}

/// The databases to load: the list that is stored, or else the single one of older settings.
pub fn effective_paths(paths: &[String], single: Option<&str>) -> (r: Vec<String>)
    ensures
        text::texts(r@) == if paths@.len() > 0 {
            text::texts(paths@)
        } else {
            match single {
                Some(p) => seq![p@],
                None => Seq::<Seq<char>>::empty(),
            }
        },
{
    let mut out: Vec<String> = Vec::new();
    let ghost all = text::texts(paths@);
    let mut i: usize = 0;
    while i < paths.len()
        invariant
            i <= paths@.len(),
            all == text::texts(paths@),
            text::texts(out@) =~= all.take(i as int),
        decreases paths@.len() - i,
    {
        let ghost before = out@;
        out.push(paths[i].clone());
        assert(text::texts(out@) =~= text::texts(before).push(all[i as int]));
        i += 1;
    }
    assert(all.take(i as int) =~= all);
    if paths.len() == 0 {
        if let Some(p) = single {
            out.push(p.to_owned());
            assert(text::texts(out@) =~= seq![p@]);
        }
    }
    out
}

} // verus!
