//! The filter of the message table: how its texts are checked and read.
use crate::text;
use vstd::prelude::*;

verus! {

/// The greatest identifier of an extended frame.
pub const MAX_ID: u32 = 0x1FFF_FFFF;

/// A text without a prefix, or nothing where it has not got it.
pub open spec fn after_prefix(s: Seq<char>, prefix: Seq<char>) -> Option<Seq<char>> {
    if text::has_prefix(s, prefix) {
        Some(s.skip(prefix.len() as int))
    } else {
        None
    }
}

/// The hexadecimal number of a text, with or without `0x` in front.
pub open spec fn hex_number(s: Seq<char>) -> Option<nat> {
    let t = text::trim(s);
    let body = match after_prefix(t, "0x"@) {
        Some(rest) => rest,
        None => match after_prefix(t, "0X"@) {
            Some(rest) => rest,
            None => t,
        },
    };
    text::unsigned_value(body, 16, 0xFFFF_FFFF)
}

fn hex_of(s: &[char]) -> (r: Option<u32>)
    ensures
        match r {
            Some(v) => hex_number(s@) == Some(v as nat),
            None => hex_number(s@) is None,
        },
{
    let t = text::trim_chars(s);
    let n: usize = t.len();
    proof {
        reveal_strlit("0x");
        reveal_strlit("0X");
    }
    let low = text::chars_of("0x");
    let high = text::chars_of("0X");
    let body = if text::begins_with(t.as_slice(), low.as_slice()) {
        let rest = text::copy_range(t.as_slice(), 2, n);
        assert(rest@ =~= t@.skip(2));
        rest
    } else if text::begins_with(t.as_slice(), high.as_slice()) {
        let rest = text::copy_range(t.as_slice(), 2, n);
        assert(rest@ =~= t@.skip(2));
        rest
    } else {
        t
    };
    match text::read_unsigned(body.as_slice(), 16, 0xFFFF_FFFF) {
        Some(v) => Some(v as u32),
        None => None,
    }
}

/// The hexadecimal number of a text, with or without `0x` in front.
pub fn parse_u32(s: &str) -> (r: Option<u32>)
    ensures
        match r {
            Some(v) => hex_number(s@) == Some(v as nat),
            None => hex_number(s@) is None,
        },
{
    let chars = text::chars_of(s);
    hex_of(chars.as_slice())
}

// ---------------------------------------------------------------- checking

/// Whether a text is an identifier.
pub open spec fn is_id(s: Seq<char>) -> bool {
    hex_number(s) is Some && hex_number(s)->0 <= MAX_ID
}

fn valid_id(s: &[char]) -> (r: bool)
    ensures
        r == is_id(s@),
{
    match hex_of(s) {
        Some(v) => v <= MAX_ID,
        None => false,
    }
}

/// Whether a condition is an identifier, an excluded one, or two with a dash between them.
pub open spec fn is_condition(token: Seq<char>) -> bool {
    if token.len() > 0 && token[0] == '!' {
        is_id(token.skip(1))
    } else {
        let k = text::find(token, '-');
        if k < token.len() {
            is_id(token.take(k)) && is_id(token.skip(k + 1))
        } else {
            is_id(token)
        }
    }
}

fn valid_condition(token: &[char]) -> (r: bool)
    ensures
        r == is_condition(token@),
{
    let n: usize = token.len();
    if n > 0 && token[0] == '!' {
        let rest = text::copy_range(token, 1, n);
        assert(rest@ =~= token@.skip(1));
        return valid_id(rest.as_slice());
    }
    let k: usize = text::find_char(token, '-');
    if k < n {
        let start = text::copy_range(token, 0, k);
        let end = text::copy_range(token, k + 1, n);
        assert(start@ =~= token@.take(k as int));
        assert(end@ =~= token@.skip(k + 1));
        valid_id(start.as_slice()) && valid_id(end.as_slice())
    } else {
        valid_id(token)
    }
}

/// The first condition, from one on, that is none.
pub open spec fn bad_condition(tokens: Seq<Seq<char>>, from: int) -> Option<Seq<char>>
    decreases tokens.len() - from,
{
    if from < 0 || from >= tokens.len() {
        None
    } else if !is_condition(text::trim(tokens[from])) {
        Some(text::trim(tokens[from]))
    } else {
        bad_condition(tokens, from + 1)
    }
}

/// Whether a text is a byte: at most two digits, with or without `0x` in front.
pub open spec fn is_byte(s: Seq<char>) -> bool {
    let hex = match after_prefix(s, "0x"@) {
        Some(rest) => rest,
        None => s,
    };
    0 < hex.len() <= 2 && text::unsigned_value(hex, 16, 0xFF) is Some
}

fn valid_byte(s: &[char]) -> (r: bool)
    ensures
        r == is_byte(s@),
{
    proof {
        reveal_strlit("0x");
    }
    let low = text::chars_of("0x");
    let n: usize = s.len();
    let hex = if text::begins_with(s, low.as_slice()) {
        let rest = text::copy_range(s, 2, n);
        assert(rest@ =~= s@.skip(2));
        rest
    } else {
        let all = text::copy_range(s, 0, n);
        assert(all@ =~= s@);
        all
    };
    0 < hex.len() && hex.len() <= 2 && text::read_unsigned(hex.as_slice(), 16, 0xFF).is_some()
}

/// The first word, from one on, that is no byte.
pub open spec fn bad_byte(words: Seq<Seq<char>>, from: int) -> Option<Seq<char>>
    decreases words.len() - from,
{
    if from < 0 || from >= words.len() {
        None
    } else if !is_byte(words[from]) {
        Some(words[from])
    } else {
        bad_byte(words, from + 1)
    }
}

/// What is wrong with the texts of a filter.
pub open spec fn filter_fault(id: Seq<char>, data: Seq<char>) -> Option<Seq<char>> {
    let bad = if text::trim(id).len() == 0 {
        None
    } else {
        bad_condition(text::split(id, ','), 0)
    };
    match bad {
        Some(token) => Some("ID 条件错误 / Invalid ID: "@ + token),
        None => match bad_byte(text::words(data), 0) {
            Some(word) => Some("Data 字节错误 / Invalid byte: "@ + word),
            None => None,
        },
    }
}

/// Checks the texts of a filter: no condition and no byte is dropped in silence.
pub fn validate_filter(id_s: &str, data_s: &str) -> (r: Result<(), String>)
    ensures
        match r {
            Ok(()) => filter_fault(id_s@, data_s@) is None,
            Err(m) => filter_fault(id_s@, data_s@) == Some(m@),
        },
{
    let bare = text::trimmed(id_s);
    if !bare.as_str().is_empty() {
        let chars = text::chars_of(id_s);
        let tokens = text::split_chars(chars.as_slice(), ',');
        let ghost all = text::split(id_s@, ',');
        let mut i: usize = 0;
        while i < tokens.len()
            invariant
                i <= tokens@.len(),
                text::trim(id_s@).len() > 0,
                all == text::split(id_s@, ','),
                text::views(tokens@) == all,
                bad_condition(all, 0) == bad_condition(all, i as int),
            decreases tokens@.len() - i,
        {
            assert(all[i as int] == tokens@[i as int]@);
            let token = text::trim_chars(tokens[i].as_slice());
            if !valid_condition(token.as_slice()) {
                let mut out = "ID 条件错误 / Invalid ID: ".to_owned();
                text::push_chars(&mut out, token.as_slice());
                return Err(out);
            }
            i += 1;
        }
        assert(all.len() == tokens@.len());
    }
    let chars = text::chars_of(data_s);
    let words = text::split_words(chars.as_slice());
    let ghost all = text::words(data_s@);
    let mut i: usize = 0;
    while i < words.len()
        invariant
            i <= words@.len(),
            text::trim(id_s@).len() == 0 || bad_condition(text::split(id_s@, ','), 0) is None,
            all == text::words(data_s@),
            text::views(words@) == all,
            bad_byte(all, 0) == bad_byte(all, i as int),
        decreases words@.len() - i,
    {
        assert(all[i as int] == words@[i as int]@);
        if !valid_byte(words[i].as_slice()) {
            let mut out = "Data 字节错误 / Invalid byte: ".to_owned();
            text::push_chars(&mut out, words[i].as_slice());
            return Err(out);
        }
        i += 1;
    }
    assert(all.len() == words@.len());
    Ok(())
}

/// A filter is accepted exactly where each of its conditions and each of its bytes is one.
pub proof fn law_accepted_filters(id: Seq<char>, data: Seq<char>)
    ensures
        filter_fault(id, data) is None <==> {
            &&& text::trim(id).len() > 0 ==> forall|i: int|
                0 <= i < text::split(id, ',').len() ==> is_condition(
                    text::trim(#[trigger] text::split(id, ',')[i]),
                )
            &&& forall|i: int|
                0 <= i < text::words(data).len() ==> is_byte(#[trigger] text::words(data)[i])
        },
{
    lemma_bad_condition(text::split(id, ','), 0);
    lemma_bad_byte(text::words(data), 0);
}

proof fn lemma_bad_condition(tokens: Seq<Seq<char>>, from: int)
    requires
        0 <= from <= tokens.len(),
    ensures
        bad_condition(tokens, from) is None <==> forall|i: int|
            from <= i < tokens.len() ==> is_condition(text::trim(#[trigger] tokens[i])),
    decreases tokens.len() - from,
{
    if from < tokens.len() {
        lemma_bad_condition(tokens, from + 1);
    }
}

proof fn lemma_bad_byte(words: Seq<Seq<char>>, from: int)
    requires
        0 <= from <= words.len(),
    ensures
        bad_byte(words, from) is None <==> forall|i: int|
            from <= i < words.len() ==> is_byte(#[trigger] words[i]),
    decreases words.len() - from,
{
    if from < words.len() {
        lemma_bad_byte(words, from + 1);
    }
}

// ---------------------------------------------------------------- reading

/// A filter of the message table.
#[derive(Debug)]
pub struct Filter {
    /// Ranges of identifiers that are shown, or all where there are none.
    pub allow: Vec<(u32, u32)>,
    /// Identifiers that are not shown.
    pub deny: Vec<u32>,
    pub name: Option<String>,
    pub name_exclude: bool,
    pub name_prefix: bool,
    pub name_suffix: bool,
    pub data: Option<Vec<u8>>,
    pub dir_filter: Option<bool>,
}

/// What a filter asks for.
pub struct FilterView {
    pub allow: Seq<(u32, u32)>,
    pub deny: Seq<u32>,
    pub name: Option<Seq<char>>,
    pub name_exclude: bool,
    pub name_prefix: bool,
    pub name_suffix: bool,
    pub data: Option<Seq<u8>>,
    pub dir_filter: Option<bool>,
}

impl View for Filter {
    type V = FilterView;

    open spec fn view(&self) -> FilterView {
        FilterView {
            allow: self.allow@,
            deny: self.deny@,
            name: match self.name {
                Some(n) => Some(n@),
                None => None,
            },
            name_exclude: self.name_exclude,
            name_prefix: self.name_prefix,
            name_suffix: self.name_suffix,
            data: match self.data {
                Some(d) => Some(d@),
                None => None,
            },
            dir_filter: self.dir_filter,
        }
    }
}

/// The filter that asks for nothing.
pub open spec fn no_filter() -> FilterView {
    FilterView {
        allow: seq![],
        deny: seq![],
        name: None,
        name_exclude: false,
        name_prefix: false,
        name_suffix: false,
        data: None,
        dir_filter: None,
    }
}

impl Default for Filter {
    fn default() -> (r: Filter)
        ensures
            r@ == no_filter(),
    {
        let r = Filter {
            allow: Vec::new(),
            deny: Vec::new(),
            name: None,
            name_exclude: false,
            name_prefix: false,
            name_suffix: false,
            data: None,
            dir_filter: None,
        };
        assert(r@.allow =~= no_filter().allow);
        assert(r@.deny =~= no_filter().deny);
        r
    }
}

fn same_ranges(a: &[(u32, u32)], b: &[(u32, u32)]) -> (r: bool)
    ensures
        r == (a@ == b@),
{
    if a.len() != b.len() {
        return false;
    }
    let mut i: usize = 0;
    while i < a.len()
        invariant
            i <= a@.len() == b@.len(),
            forall|j: int| 0 <= j < i ==> a@[j] == b@[j],
        decreases a@.len() - i,
    {
        if a[i].0 != b[i].0 || a[i].1 != b[i].1 {
            return false;
        }
        i += 1;
    }
    assert(a@ =~= b@);
    true
}

fn same_numbers(a: &[u32], b: &[u32]) -> (r: bool)
    ensures
        r == (a@ == b@),
{
    if a.len() != b.len() {
        return false;
    }
    let mut i: usize = 0;
    while i < a.len()
        invariant
            i <= a@.len() == b@.len(),
            forall|j: int| 0 <= j < i ==> a@[j] == b@[j],
        decreases a@.len() - i,
    {
        if a[i] != b[i] {
            return false;
        }
        i += 1;
    }
    assert(a@ =~= b@);
    true
}

fn same_bytes(a: &[u8], b: &[u8]) -> (r: bool)
    ensures
        r == (a@ == b@),
{
    if a.len() != b.len() {
        return false;
    }
    let mut i: usize = 0;
    while i < a.len()
        invariant
            i <= a@.len() == b@.len(),
            forall|j: int| 0 <= j < i ==> a@[j] == b@[j],
        decreases a@.len() - i,
    {
        if a[i] != b[i] {
            return false;
        }
        i += 1;
    }
    assert(a@ =~= b@);
    true
}

/// Whether two filters ask for the same.
pub fn same_filter(a: &Filter, b: &Filter) -> (r: bool)
    ensures
        r == (a@ == b@),
{
    let names: bool = match (&a.name, &b.name) {
        (Some(x), Some(y)) => text::same_text(x.as_str(), y.as_str()),
        (None, None) => true,
        _ => false,
    };
    let data: bool = match (&a.data, &b.data) {
        (Some(x), Some(y)) => same_bytes(x.as_slice(), y.as_slice()),
        (None, None) => true,
        _ => false,
    };
    let directions: bool = match (a.dir_filter, b.dir_filter) {
        (Some(x), Some(y)) => x == y,
        (None, None) => true,
        _ => false,
    };
    names && data && directions && a.name_exclude == b.name_exclude && a.name_prefix
        == b.name_prefix && a.name_suffix == b.name_suffix && same_ranges(
        a.allow.as_slice(),
        b.allow.as_slice(),
    ) && same_numbers(a.deny.as_slice(), b.deny.as_slice())
}

/// The range between two numbers, whichever is greater.
pub open spec fn range(a: nat, b: nat) -> (u32, u32) {
    if a <= b {
        (a as u32, b as u32)
    } else {
        (b as u32, a as u32)
    }
}

/// The range that a condition allows, if it is one that allows.
pub open spec fn allowed(token: Seq<char>) -> Option<(u32, u32)> {
    if token.len() == 0 || token[0] == '!' {
        None
    } else {
        let k = text::find(token, '-');
        if k < token.len() {
            match (hex_number(text::trim(token.take(k))), hex_number(text::trim(token.skip(k + 1)))) {
                (Some(a), Some(b)) => Some(range(a, b)),
                _ => None,
            }
        } else {
            match hex_number(token) {
                Some(v) => Some(range(v, v)),
                None => None,
            }
        }
    }
}

/// The identifier that a condition excludes, if it is one that does.
pub open spec fn denied(token: Seq<char>) -> Option<u32> {
    if token.len() > 0 && token[0] == '!' {
        match hex_number(token.skip(1)) {
            Some(v) => Some(v as u32),
            None => None,
        }
    } else {
        None
    }
}

/// The ranges that some conditions allow.
pub open spec fn all_allowed(tokens: Seq<Seq<char>>) -> Seq<(u32, u32)>
    decreases tokens.len(),
{
    if tokens.len() == 0 {
        seq![]
    } else {
        let before = all_allowed(tokens.drop_last());
        match allowed(text::trim(tokens.last())) {
            Some(range) => before.push(range),
            None => before,
        }
    }
}

/// The identifiers that some conditions exclude.
pub open spec fn all_denied(tokens: Seq<Seq<char>>) -> Seq<u32>
    decreases tokens.len(),
{
    if tokens.len() == 0 {
        seq![]
    } else {
        let before = all_denied(tokens.drop_last());
        match denied(text::trim(tokens.last())) {
            Some(id) => before.push(id),
            None => before,
        }
    }
}

/// A text without any `0x` in front of it.
pub open spec fn without_marks(s: Seq<char>) -> Seq<char>
    decreases s.len(),
{
    if s.len() >= 2 && s[0] == '0' && s[1] == 'x' {
        without_marks(s.skip(2))
    } else {
        s
    }
}

/// The bytes of some words; what is no byte is left out.
pub open spec fn bytes_of(words: Seq<Seq<char>>) -> Seq<u8>
    decreases words.len(),
{
    if words.len() == 0 {
        seq![]
    } else {
        let before = bytes_of(words.drop_last());
        match text::unsigned_value(without_marks(words.last()), 16, 0xFF) {
            Some(v) => before.push(v as u8),
            None => before,
        }
    }
}

/// Whether a filter has the name condition of a text: excluded after `!`, a beginning before `*`,
/// an end after `*`, else a part.
pub open spec fn reads_name(f: Filter, name: Seq<char>) -> bool {
    let n = text::trim(name);
    if n.len() == 0 {
        f.name is None && !f.name_exclude && !f.name_prefix && !f.name_suffix
    } else {
        &&& f.name is Some
        &&& if n[0] == '!' {
            f.name->0@ == n.skip(1) && f.name_exclude && !f.name_prefix && !f.name_suffix
        } else if n.last() == '*' {
            f.name->0@ == n.drop_last() && !f.name_exclude && f.name_prefix && !f.name_suffix
        } else if n[0] == '*' {
            f.name->0@ == n.skip(1) && !f.name_exclude && !f.name_prefix && f.name_suffix
        } else {
            f.name->0@ == n && !f.name_exclude && !f.name_prefix && !f.name_suffix
        }
    }
}

fn smaller_first(a: u32, b: u32) -> (r: (u32, u32))
    ensures
        r == range(a as nat, b as nat),
{
    if a <= b {
        (a, b)
    } else {
        (b, a)
    }
}

fn read_allowed(token: &[char]) -> (r: Option<(u32, u32)>)
    ensures
        r == allowed(token@),
{
    let n: usize = token.len();
    if n == 0 || token[0] == '!' {
        return None;
    }
    let k: usize = text::find_char(token, '-');
    if k < n {
        let start = text::copy_range(token, 0, k);
        let end = text::copy_range(token, k + 1, n);
        assert(start@ =~= token@.take(k as int));
        assert(end@ =~= token@.skip(k + 1));
        let start = text::trim_chars(start.as_slice());
        let end = text::trim_chars(end.as_slice());
        match (hex_of(start.as_slice()), hex_of(end.as_slice())) {
            (Some(a), Some(b)) => Some(smaller_first(a, b)),
            _ => None,
        }
    } else {
        match hex_of(token) {
            Some(v) => Some(smaller_first(v, v)),
            None => None,
        }
    }
}

fn read_denied(token: &[char]) -> (r: Option<u32>)
    ensures
        r == denied(token@),
{
    let n: usize = token.len();
    if n > 0 && token[0] == '!' {
        let rest = text::copy_range(token, 1, n);
        assert(rest@ =~= token@.skip(1));
        hex_of(rest.as_slice())
    } else {
        None
    }
}

fn remove_marks(s: &[char]) -> (r: Vec<char>)
    ensures
        r@ == without_marks(s@),
{
    let n: usize = s.len();
    let mut i: usize = 0;
    assert(s@.skip(0) =~= s@);
    while n - i >= 2 && s[i] == '0' && s[i + 1] == 'x'
        invariant
            i <= n == s@.len(),
            without_marks(s@) == without_marks(s@.skip(i as int)),
        decreases n - i,
    {
        assert(s@.skip(i as int).skip(2) =~= s@.skip(i + 2));
        i += 2;
    }
    let rest = text::copy_range(s, i, n);
    assert(rest@ =~= s@.skip(i as int));
    rest
}

fn read_bytes(words: &[Vec<char>]) -> (r: Vec<u8>)
    ensures
        r@ == bytes_of(text::views(words@)),
{
    let ghost all = text::views(words@);
    let mut out: Vec<u8> = Vec::new();
    let mut i: usize = 0;
    assert(all.take(0) =~= seq![]);
    assert(out@ =~= bytes_of(all.take(0)));
    while i < words.len()
        invariant
            i <= words@.len(),
            all == text::views(words@),
            out@ == bytes_of(all.take(i as int)),
        decreases words@.len() - i,
    {
        assert(all.take(i + 1).drop_last() =~= all.take(i as int));
        assert(all.take(i + 1).last() == words@[i as int]@);
        let body = remove_marks(words[i].as_slice());
        if let Some(v) = text::read_unsigned(body.as_slice(), 16, 0xFF) {
            out.push(v as u8);
        }
        i += 1;
    }
    assert(all.take(i as int) =~= all);
    out
}

/// Reads the texts of a filter. What is no condition is left out: see `validate_filter`.
pub fn parse_filter(id_s: &str, name_s: &str, data_s: &str) -> (r: Filter)
    ensures
        r.allow@ == all_allowed(text::split(id_s@, ',')),
        r.deny@ == all_denied(text::split(id_s@, ',')),
        reads_name(r, name_s@),
        match r.data {
            Some(bytes) => bytes@.len() > 0 && bytes@ == bytes_of(text::words(text::trim(data_s@))),
            None => bytes_of(text::words(text::trim(data_s@))).len() == 0,
        },
        r.dir_filter is None,
{
    let chars = text::chars_of(id_s);
    let tokens = text::split_chars(chars.as_slice(), ',');
    let ghost all = text::split(id_s@, ',');
    let mut allow: Vec<(u32, u32)> = Vec::new();
    let mut deny: Vec<u32> = Vec::new();
    let mut i: usize = 0;
    assert(all.take(0) =~= seq![]);
    assert(allow@ =~= all_allowed(all.take(0)));
    assert(deny@ =~= all_denied(all.take(0)));
    while i < tokens.len()
        invariant
            i <= tokens@.len(),
            text::views(tokens@) == all,
            allow@ == all_allowed(all.take(i as int)),
            deny@ == all_denied(all.take(i as int)),
        decreases tokens@.len() - i,
    {
        assert(all.take(i + 1).drop_last() =~= all.take(i as int));
        assert(all.take(i + 1).last() == tokens@[i as int]@);
        let token = text::trim_chars(tokens[i].as_slice());
        if let Some(range) = read_allowed(token.as_slice()) {
            allow.push(range);
        }
        if let Some(id) = read_denied(token.as_slice()) {
            deny.push(id);
        }
        i += 1;
    }
    assert(all.take(i as int) =~= all) by {
        assert(text::views(tokens@).len() == tokens@.len());
    }
    let mut f = Filter {
        allow,
        deny,
        name: None,
        name_exclude: false,
        name_prefix: false,
        name_suffix: false,
        data: None,
        dir_filter: None,
    };
    let named = text::chars_of(name_s);
    let n = text::trim_chars(named.as_slice());
    let len: usize = n.len();
    if len > 0 {
        if n[0] == '!' {
            let rest = text::copy_range(n.as_slice(), 1, len);
            assert(rest@ =~= n@.skip(1));
            f.name = Some(text::string_of(rest.as_slice()));
            f.name_exclude = true;
        } else if n[len - 1] == '*' {
            let rest = text::copy_range(n.as_slice(), 0, len - 1);
            assert(rest@ =~= n@.drop_last());
            f.name = Some(text::string_of(rest.as_slice()));
            f.name_prefix = true;
        } else if n[0] == '*' {
            let rest = text::copy_range(n.as_slice(), 1, len);
            assert(rest@ =~= n@.skip(1));
            f.name = Some(text::string_of(rest.as_slice()));
            f.name_suffix = true;
        } else {
            f.name = Some(text::string_of(n.as_slice()));
        }
    }
    let raw = text::chars_of(data_s);
    let d = text::trim_chars(raw.as_slice());
    let words = text::split_words(d.as_slice());
    let bytes = read_bytes(words.as_slice());
    if bytes.len() > 0 {
        f.data = Some(bytes);
    }
    f
}

proof fn lemma_trim_end(s: Seq<char>)
    ensures
        text::trim_end(text::trim_end(s)) == text::trim_end(s),
        text::trim_end(s).len() <= s.len(),
        text::trim_end(s).len() > 0 ==> text::trim_end(s)[0] == s[0],
    decreases s.len(),
{
    if s.len() > 0 && text::is_space(s.last()) {
        lemma_trim_end(s.drop_last());
    }
}

proof fn lemma_trim_twice(s: Seq<char>)
    ensures
        text::trim(text::trim(s)) == text::trim(s),
{
    let y = text::trim_start(s);
    text::lemma_trim_start(s);
    lemma_trim_end(y);
}

/// No condition of an accepted filter is dropped: each one allows a range or excludes an
/// identifier.
pub proof fn law_no_condition_is_dropped(id: Seq<char>, data: Seq<char>)
    requires
        filter_fault(id, data) is None,
        text::trim(id).len() > 0,
    ensures
        all_allowed(text::split(id, ',')).len() + all_denied(text::split(id, ',')).len()
            == text::split(id, ',').len(),
{
    law_accepted_filters(id, data);
    lemma_all_read(text::split(id, ','));
}

/// The value of a word that is a byte.
pub open spec fn byte_value(word: Seq<char>) -> u8 {
    let hex = match after_prefix(word, "0x"@) {
        Some(rest) => rest,
        None => word,
    };
    text::unsigned_value(hex, 16, 0xFF)->0 as u8
}

/// No byte of an accepted filter is dropped: each word of the text is one, in order. A blank text
/// has none.
pub proof fn law_no_byte_is_dropped(id: Seq<char>, data: Seq<char>)
    requires
        filter_fault(id, data) is None,
    ensures
        ({
            let bytes = bytes_of(text::words(text::trim(data)));
            &&& bytes.len() == text::words(data).len()
            &&& forall|i: int|
                0 <= i < bytes.len() ==> #[trigger] bytes[i] == byte_value(text::words(data)[i])
            &&& bytes.len() == 0 <==> text::trim(data).len() == 0
        }),
{
    law_accepted_filters(id, data);
    text::lemma_words_trimmed(data);
    lemma_all_bytes(text::words(data));
}

proof fn lemma_all_bytes(words: Seq<Seq<char>>)
    requires
        forall|i: int| 0 <= i < words.len() ==> is_byte(#[trigger] words[i]),
    ensures
        bytes_of(words).len() == words.len(),
        forall|i: int|
            0 <= i < words.len() ==> #[trigger] bytes_of(words)[i] == byte_value(words[i]),
    decreases words.len(),
{
    if words.len() > 0 {
        let rest = words.drop_last();
        assert forall|i: int| 0 <= i < rest.len() implies is_byte(#[trigger] rest[i]) by {
            assert(rest[i] == words[i]);
        }
        lemma_all_bytes(rest);
        let w = words[words.len() - 1];
        assert(is_byte(w));
        lemma_one_mark(w);
        assert forall|i: int| 0 <= i < words.len() implies #[trigger] bytes_of(words)[i]
            == byte_value(words[i]) by {
            if i < rest.len() {
                assert(bytes_of(rest)[i] == byte_value(rest[i]));
            }
        }
    }
}

proof fn lemma_one_mark(w: Seq<char>)
    requires
        is_byte(w),
    ensures
        without_marks(w) == match after_prefix(w, "0x"@) {
            Some(rest) => rest,
            None => w,
        },
{
    reveal_strlit("0x");
    let marked = w.len() >= 2 && w[0] == '0' && w[1] == 'x';
    assert(marked <==> text::has_prefix(w, "0x"@)) by {
        if text::has_prefix(w, "0x"@) {
            assert(w.subrange(0, 2)[0] == "0x"@[0] && w.subrange(0, 2)[1] == "0x"@[1]);
        }
        if marked {
            assert(w.subrange(0, 2) =~= "0x"@);
        }
    }
    let hex = if marked {
        w.skip(2)
    } else {
        w
    };
    if marked && hex.len() >= 2 && hex[0] == '0' && hex[1] == 'x' {
        assert(hex.last() == 'x');
        assert(text::digits_value(hex, 16) is None);
    }
    if marked {
        assert(without_marks(w) == without_marks(hex));
    }
}

/// A blank text of identifiers neither allows nor excludes any.
pub proof fn law_blank_filters_are_empty(id: Seq<char>)
    requires
        text::trim(id).len() == 0,
    ensures
        all_allowed(text::split(id, ',')).len() == 0,
        all_denied(text::split(id, ',')).len() == 0,
{
    text::lemma_words_trimmed(id);
    text::lemma_trim_start(id);
    text::lemma_find(id, ',');
    let tokens = text::split(id, ',');
    assert(tokens =~= seq![id]);
    let none = Seq::<Seq<char>>::empty();
    assert(tokens.drop_last() =~= none);
    assert(all_allowed(none).len() == 0 && all_denied(none).len() == 0);
    assert(tokens.last() == id);
}

proof fn lemma_all_read(tokens: Seq<Seq<char>>)
    requires
        forall|i: int|
            0 <= i < tokens.len() ==> is_condition(text::trim(#[trigger] tokens[i])),
    ensures
        all_allowed(tokens).len() + all_denied(tokens).len() == tokens.len(),
    decreases tokens.len(),
{
    if tokens.len() > 0 {
        let rest = tokens.drop_last();
        assert forall|i: int| 0 <= i < rest.len() implies is_condition(
            text::trim(#[trigger] rest[i]),
        ) by {
            assert(rest[i] == tokens[i]);
        }
        lemma_all_read(rest);
        let token = text::trim(tokens[tokens.len() - 1]);
        assert(is_condition(token));
        let k = text::find(token, '-');
        text::lemma_find(token, '-');
        if token.len() == 0 {
            assert(hex_number(token) is None) by {
                lemma_trim_twice(tokens[tokens.len() - 1]);
                reveal_strlit("0x");
                reveal_strlit("0X");
            }
        }
        if k < token.len() {
            lemma_trim_twice(token.take(k));
            lemma_trim_twice(token.skip(k + 1));
        }
    }
}

/// The direction that a choice of the user means: received, sent, or both.
pub fn dir_idx_to_opt(idx: i32) -> (r: Option<bool>)
    ensures
        r == match idx {
            1 => Some(false),
            2 => Some(true),
            _ => None,
        },
{
    match idx {
        1 => Some(false),
        2 => Some(true),
        _ => None,
    }
}

} // verus!
