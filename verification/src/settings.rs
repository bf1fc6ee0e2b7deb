//! The control center's settings pages: reading the `key=value` state files
//! that the system daemons write, what each page shows from them, and the
//! configuration lines the pages write back.
use vstd::prelude::*;

use crate::text::{
    chars_eq, chars_eq_str, chars_of, concat2, extend_chars, int_dec_seq, int_to_string, lemma_one_line, lemma_parse_dec, lines_of,
    lines_seq, strip_cr, is_digit, dec_seq, lemma_dec_value, parse_signed, parse_signed_seq, string_of, sub_chars,
};

verus! {

/// How many times `c` occurs in `s`.
pub open spec fn count_char(s: Seq<char>, c: char) -> nat
    decreases s.len(),
{
    if s.len() == 0 {
        0
    } else {
        count_char(s.drop_last(), c) + if s.last() == c {
            1nat
        } else {
            0nat
        }
    }
}

/// The position of the first `c` in `s` (its length when there is none).
pub open spec fn first_index(s: Seq<char>, c: char) -> int
    decreases s.len(),
{
    if s.len() == 0 {
        0
    } else if s[0] == c {
        0
    } else {
        1 + first_index(s.drop_first(), c)
    }
}

/// The key and value of a state-file line: a line with exactly one `=`
/// splits there; other lines hold no setting.
pub open spec fn key_value(line: Seq<char>) -> Option<(Seq<char>, Seq<char>)> {
    if count_char(line, '=') == 1 {
        let i = first_index(line, '=');
        Some((line.take(i), line.skip(i + 1)))
    } else {
        None
    }
}

/// The settings of a list of lines, in order.
pub open spec fn pairs_of_lines(lines: Seq<Seq<char>>) -> Seq<(Seq<char>, Seq<char>)>
    decreases lines.len(),
{
    if lines.len() == 0 {
        seq![]
    } else {
        let rest = pairs_of_lines(lines.drop_last());
        match key_value(lines.last()) {
            Some(p) => rest.push(p),
            None => rest,
        }
    }
}

/// The settings in the text of a state file.
pub open spec fn state_pairs(contents: Seq<char>) -> Seq<(Seq<char>, Seq<char>)> {
    pairs_of_lines(lines_seq(contents))
}

/// The value of the last setting of `key` (later lines override earlier).
pub open spec fn last_value(pairs: Seq<(Seq<char>, Seq<char>)>, key: Seq<char>) -> Option<Seq<char>>
    decreases pairs.len(),
{
    if pairs.len() == 0 {
        None
    } else if pairs.last().0 == key {
        Some(pairs.last().1)
    } else {
        last_value(pairs.drop_last(), key)
    }
}

/// An integer setting: the number in its last value (`str::parse::<i32>`),
/// or `default` when it is missing or is no number.
pub open spec fn int_setting(pairs: Seq<(Seq<char>, Seq<char>)>, key: Seq<char>, default: i32) -> int {
    match last_value(pairs, key) {
        Some(v) => match parse_signed_seq(v, i32::MAX as nat) {
            Some(n) => n,
            None => default as int,
        },
        None => default as int,
    }
}

/// A text setting: its last value, or `default` when it is missing.
pub open spec fn text_setting(pairs: Seq<(Seq<char>, Seq<char>)>, key: Seq<char>, default: Seq<char>) -> Seq<char> {
    match last_value(pairs, key) {
        Some(v) => v,
        None => default,
    }
}

/// One setting read from a state file.
#[derive(Debug)]
pub struct Setting {
    pub key: String,
    pub value: String,
}

/// The key and value of settings.
pub open spec fn settings_view(v: Seq<Setting>) -> Seq<(Seq<char>, Seq<char>)> {
    v.map_values(|s: Setting| (s.key@, s.value@))
}

proof fn lemma_count_first(s: Seq<char>, c: char)
    ensures
        0 <= first_index(s, c) <= s.len(),
        first_index(s, c) < s.len() ==> s[first_index(s, c)] == c,
        forall|k: int| 0 <= k < first_index(s, c) ==> s[k] != c,
    decreases s.len(),
{
    if s.len() > 0 && s[0] != c {
        lemma_count_first(s.drop_first(), c);
        assert forall|k: int| 0 <= k < first_index(s, c) implies s[k] != c by {
            if k > 0 {
                assert(s[k] == s.drop_first()[k - 1]);
            }
        }
    }
}

/// The key and value of one line.
fn split_setting(line: &Vec<char>) -> (r: Option<Setting>)
    ensures
        match key_value(line@) {
            Some((k, v)) => r matches Some(s) && s.key@ == k && s.value@ == v,
            None => r is None,
        },
{
    let mut count: usize = 0;
    let mut first: usize = line.len();
    let mut i: usize = 0;
    proof {
        lemma_count_first(line@, '=');
    }
    while i < line.len()
        invariant
            i <= line.len(),
            count == count_char(line@.take(i as int), '='),
            count <= i,
            count == 0 ==> first == line.len() && forall|k: int| 0 <= k < i ==> line@[k] != '=',
            count > 0 ==> first == first_index(line@, '=') && first < i,
            0 <= first_index(line@, '=') <= line@.len(),
            first_index(line@, '=') < line@.len() ==> line@[first_index(line@, '=')] == '=',
            forall|k: int| 0 <= k < first_index(line@, '=') ==> line@[k] != '=',
        decreases line.len() - i,
    {
        assert(line@.take(i + 1).drop_last() =~= line@.take(i as int));
        assert(line@.take(i + 1).last() == line@[i as int]);
        if line[i] == '=' {
            if count == 0 {
                first = i;
            }
            count = count + 1;
        }
        i = i + 1;
    }
    assert(line@.take(line.len() as int) =~= line@);
    if count == 1 {
        let key = sub_chars(line, 0, first);
        let value = sub_chars(line, first + 1, line.len());
        assert(key@ =~= line@.take(first as int));
        assert(value@ =~= line@.skip(first + 1));
        Some(Setting { key: string_of(&key), value: string_of(&value) })
    } else {
        None
    }
}

/// The settings in the text of a state file, in order.
pub fn parse_settings(contents: &str) -> (r: Vec<Setting>)
    ensures
        settings_view(r@) == state_pairs(contents@),
{
    let c = chars_of(contents);
    let lines = lines_of(&c);
    let ghost lv = lines@.map_values(|l: Vec<char>| l@);
    let mut out: Vec<Setting> = Vec::new();
    let mut i: usize = 0;
    assert(lv.take(0) =~= Seq::<Seq<char>>::empty());
    while i < lines.len()
        invariant
            i <= lines.len(),
            lv == lines@.map_values(|l: Vec<char>| l@),
            settings_view(out@) == pairs_of_lines(lv.take(i as int)),
        decreases lines.len() - i,
    {
        assert(lv.take(i + 1).drop_last() =~= lv.take(i as int));
        assert(lv.take(i + 1).last() == lines@[i as int]@);
        let ghost before = settings_view(out@);
        match split_setting(&lines[i]) {
            Some(s) => {
                let ghost sv = (s.key@, s.value@);
                out.push(s);
                assert(settings_view(out@) =~= before.push(sv));
            },
            None => {},
        }
        i = i + 1;
    }
    assert(lv.take(lines.len() as int) =~= lv);
    out
}

/// The value of the last setting of `key`, if any.
pub fn find_last(settings: &Vec<Setting>, key: &str) -> (r: Option<String>)
    ensures
        match last_value(settings_view(settings@), key@) {
            Some(v) => r matches Some(s) && s@ == v,
            None => r is None,
        },
{
    let ghost sv = settings_view(settings@);
    let k = chars_of(key);
    let mut i: usize = settings.len();
    assert(sv.take(settings.len() as int) =~= sv);
    while i > 0
        invariant
            i <= settings.len(),
            sv == settings_view(settings@),
            k@ == key@,
            last_value(sv, key@) == last_value(sv.take(i as int), key@),
        decreases i,
    {
        let ghost t = sv.take(i as int);
        assert(t.last() == (settings@[i - 1].key@, settings@[i - 1].value@));
        assert(t.drop_last() =~= sv.take(i - 1));
        let sk = chars_of(settings[i - 1].key.as_str());
        if chars_eq(&sk, &k) {
            return Some(settings[i - 1].value.clone());
        }
        i = i - 1;
    }
    None
}

/// An integer setting, `default` when missing or not a number.
pub fn int_value(settings: &Vec<Setting>, key: &str, default: i32) -> (r: i32)
    ensures
        r == int_setting(settings_view(settings@), key@, default),
{
    match find_last(settings, key) {
        Some(v) => {
            let c = chars_of(v.as_str());
            match parse_signed(&c, 0x7fff_ffff) {
                Some(n) => n as i32,
                None => default,
            }
        },
        None => default,
    }
}

/// A text setting, `default` when missing.
pub fn text_value(settings: &Vec<Setting>, key: &str, default: &str) -> (r: String)
    ensures
        r@ == text_setting(settings_view(settings@), key@, default@),
{
    match find_last(settings, key) {
        Some(v) => v,
        None => string_of(&chars_of(default)),
    }
}

/// What the battery page shows from the battery state file (the charge rate
/// and health are fractional and read by the page itself).
#[derive(Debug)]
pub struct BatteryReadings {
    pub capacity: i32,
    pub status: String,
    pub cycles: i32,
    pub charge_limit: i32,
}

/// The battery readings in a state file's text.
pub fn battery_readings(contents: &str) -> (r: BatteryReadings)
    ensures
        r.capacity == int_setting(state_pairs(contents@), "capacity"@, 0),
        r.status@ == text_setting(state_pairs(contents@), "status"@, "Unknown"@),
        r.cycles == int_setting(state_pairs(contents@), "cycles"@, 0),
        r.charge_limit == int_setting(state_pairs(contents@), "charge_limit"@, 100),
{
    let s = parse_settings(contents);
    BatteryReadings {
        capacity: int_value(&s, "capacity", 0),
        status: text_value(&s, "status", "Unknown"),
        cycles: int_value(&s, "cycles", 0),
        charge_limit: int_value(&s, "charge_limit", 100),
    }
}

/// The battery status line: status and charge in percent.
pub fn battery_status_label(r: &BatteryReadings) -> (s: String)
    ensures
        s@ == "Battery: "@ + r.status@ + " ("@ + int_dec_seq(r.capacity as int) + "%)"@,
{
    let mut v = chars_of("Battery: ");
    extend_chars(&mut v, &chars_of(r.status.as_str()));
    extend_chars(&mut v, &chars_of(" ("));
    let n = int_to_string(r.capacity as i64);
    extend_chars(&mut v, &chars_of(n.as_str()));
    extend_chars(&mut v, &chars_of("%)"));
    string_of(&v)
}

/// The charge-cycle line.
pub fn cycle_count_label(cycles: i32) -> (s: String)
    ensures
        s@ == "Cycle Count: "@ + int_dec_seq(cycles as int),
{
    let n = int_to_string(cycles as i64);
    concat2("Cycle Count: ", n.as_str())
}

/// The charge-limit buttons.
#[derive(Debug, Clone, Copy, PartialEq, Eq, Structural)]
pub enum ChargeLimitButton {
    Eighty,
    Ninety,
    Full,
}

/// The button highlighted for a charge limit: 80 and 90 have their own
/// buttons; anything else highlights 100%.
pub fn highlighted_limit(limit: i32) -> (r: ChargeLimitButton)
    ensures
        limit == 80 ==> r == ChargeLimitButton::Eighty,
        limit == 90 ==> r == ChargeLimitButton::Ninety,
        limit != 80 && limit != 90 ==> r == ChargeLimitButton::Full,
{
    match limit {
        80 => ChargeLimitButton::Eighty,
        90 => ChargeLimitButton::Ninety,
        _ => ChargeLimitButton::Full,
    }
}

/// The line written to the battery configuration for a charge limit.
pub fn charge_limit_config(limit: i32) -> (s: String)
    ensures
        s@ == "charge_limit="@ + int_dec_seq(limit as int) + "\n"@,
{
    let n = int_to_string(limit as i64);
    crate::text::concat3("charge_limit=", n.as_str(), "\n")
}

/// The line written to the fan configuration for a manual speed (-1:
/// automatic control).
pub fn fan_override_config(speed: i32) -> (s: String)
    ensures
        s@ == "manual_speed="@ + int_dec_seq(speed as int) + "\n"@,
{
    let n = int_to_string(speed as i64);
    crate::text::concat3("manual_speed=", n.as_str(), "\n")
}

/// What the heat page shows from the thermal and fan state files (the
/// temperatures are fractional and read by the page itself).
#[derive(Debug)]
pub struct CoolingReadings {
    pub throttling: bool,
    pub fan_speed: i32,
    pub fan_rpm: i32,
}

/// The cooling readings in the thermal and fan state files' texts:
/// throttling is on when the last `throttle` value is `1`.
pub fn cooling_readings(thermal: &str, fan: &str) -> (r: CoolingReadings)
    ensures
        r.throttling == (last_value(state_pairs(thermal@), "throttle"@) == Some("1"@)),
        r.fan_speed == int_setting(state_pairs(fan@), "fan_speed"@, 0),
        r.fan_rpm == int_setting(state_pairs(fan@), "fan_rpm"@, 0),
{
    let t = parse_settings(thermal);
    let f = parse_settings(fan);
    let throttling = match find_last(&t, "throttle") {
        Some(v) => {
            let c = chars_of(v.as_str());
            chars_eq_str(&c, "1")
        },
        None => false,
    };
    CoolingReadings {
        throttling,
        fan_speed: int_value(&f, "fan_speed", 0),
        fan_rpm: int_value(&f, "fan_rpm", 0),
    }
}

/// The throttling line.
pub fn throttling_label(active: bool) -> (s: String)
    ensures
        active ==> s@ == "Thermal Throttling: ACTIVE"@,
        !active ==> s@ == "Thermal Throttling: INACTIVE"@,
{
    if active {
        string_of(&chars_of("Thermal Throttling: ACTIVE"))
    } else {
        string_of(&chars_of("Thermal Throttling: INACTIVE"))
    }
}

/// The fan line: speed in percent and revolutions per minute.
pub fn fan_label(speed: i32, rpm: i32) -> (s: String)
    ensures
        s@ == "Active Fan Speed: "@ + int_dec_seq(speed as int) + "% ("@ + int_dec_seq(rpm as int) + " RPM)"@,
{
    let mut v = chars_of("Active Fan Speed: ");
    let a = int_to_string(speed as i64);
    extend_chars(&mut v, &chars_of(a.as_str()));
    extend_chars(&mut v, &chars_of("% ("));
    let b = int_to_string(rpm as i64);
    extend_chars(&mut v, &chars_of(b.as_str()));
    extend_chars(&mut v, &chars_of(" RPM)"));
    string_of(&v)
}

/// What the updates page shows from the updates state file.
#[derive(Debug)]
pub struct UpdateReadings {
    pub status: String,
    pub available: i32,
    pub last_check: String,
}

/// The update readings in a state file's text.
pub fn update_readings(contents: &str) -> (r: UpdateReadings)
    ensures
        r.status@ == text_setting(state_pairs(contents@), "status"@, "Idle"@),
        r.available == int_setting(state_pairs(contents@), "updates_available"@, 0),
        r.last_check@ == text_setting(state_pairs(contents@), "last_check"@, "Never"@),
{
    let s = parse_settings(contents);
    UpdateReadings {
        status: text_value(&s, "status", "Idle"),
        available: int_value(&s, "updates_available", 0),
        last_check: text_value(&s, "last_check", "Never"),
    }
}

/// The three lines of the updates page.
pub fn update_labels(r: &UpdateReadings) -> (s: (String, String, String))
    ensures
        s.0@ == "Status: "@ + r.status@,
        s.1@ == "Available Updates: "@ + int_dec_seq(r.available as int) + " packages"@,
        s.2@ == "Last Checked: "@ + r.last_check@,
{
    let n = int_to_string(r.available as i64);
    (
        concat2("Status: ", r.status.as_str()),
        crate::text::concat3("Available Updates: ", n.as_str(), " packages"),
        concat2("Last Checked: ", r.last_check.as_str()),
    )
}

/// Whether the busy spinner shows and whether the install button can be
/// pressed: while idle, no spinner, and installing needs available updates;
/// otherwise the spinner runs and installing waits.
pub fn update_controls(r: &UpdateReadings) -> (c: (bool, bool))
    ensures
        r.status@ == "Idle"@ ==> c == (false, r.available > 0),
        r.status@ != "Idle"@ ==> c == (true, false),
{
    let st = chars_of(r.status.as_str());
    if chars_eq_str(&st, "Idle") {
        (false, r.available > 0)
    } else {
        (true, false)
    }
}


proof fn lemma_count_plain(s: Seq<char>)
    requires
        forall|i: int| 0 <= i < s.len() ==> s[i] != '=',
    ensures
        count_char(s, '=') == 0,
        first_index(s, '=') == s.len(),
    decreases s.len(),
{
    if s.len() > 0 {
        assert forall|i: int| 0 <= i < s.drop_last().len() implies s.drop_last()[i] != '=' by {
            assert(s.drop_last()[i] == s[i]);
        }
        lemma_count_plain(s.drop_last());
        assert forall|i: int| 0 <= i < s.drop_first().len() implies s.drop_first()[i] != '=' by {
            assert(s.drop_first()[i] == s[i + 1]);
        }
        lemma_count_plain(s.drop_first());
    }
}

proof fn lemma_count_concat(a: Seq<char>, b: Seq<char>)
    ensures
        count_char(a + b, '=') == count_char(a, '=') + count_char(b, '='),
    decreases b.len(),
{
    if b.len() == 0 {
        assert(a + b =~= a);
    } else {
        lemma_count_concat(a, b.drop_last());
        assert((a + b).drop_last() =~= a + b.drop_last());
    }
}

proof fn lemma_first_index_concat(a: Seq<char>, b: Seq<char>)
    requires
        forall|i: int| 0 <= i < a.len() ==> a[i] != '=',
    ensures
        first_index(a + b, '=') == a.len() + first_index(b, '='),
    decreases a.len(),
{
    if a.len() == 0 {
        assert(a + b =~= b);
    } else {
        assert((a + b).drop_first() =~= a.drop_first() + b);
        assert forall|i: int| 0 <= i < a.drop_first().len() implies a.drop_first()[i] != '=' by {
            assert(a.drop_first()[i] == a[i + 1]);
        }
        lemma_first_index_concat(a.drop_first(), b);
    }
}

/// What a configuration line written for a setting reads back as: writing
/// `key=<n>` and reading the integer setting `key` gives `n` back.
pub proof fn law_setting_round_trip(key: Seq<char>, n: i32, default: i32)
    requires
        forall|i: int| 0 <= i < key.len() ==> key[i] != '=' && key[i] != '\n',
    ensures
        int_setting(state_pairs(key + "="@ + int_dec_seq(n as int) + "\n"@), key, default) == n,
{
    reveal_strlit("=");
    reveal_strlit("\n");
    let v = int_dec_seq(n as int);
    let m: nat = if n < 0 { (-n) as nat } else { n as nat };
    lemma_dec_value(m);
    assert forall|i: int| 0 <= i < v.len() implies v[i] != '=' && v[i] != '\n' && v[i] != '\r' by {
        if n < 0 {
            if i > 0 {
                assert(v[i] == dec_seq(m)[i - 1]);
                assert(is_digit(dec_seq(m)[i - 1]));
            }
        } else {
            assert(is_digit(dec_seq(m)[i]));
        }
    }
    let line = key + "="@ + v;
    assert(key + "="@ + v + "\n"@ =~= line + seq!['\n']);
    assert forall|i: int| 0 <= i < line.len() implies line[i] != '\n' by {
        if i < key.len() {
            assert(line[i] == key[i]);
        } else if i > key.len() {
            assert(line[i] == v[i - key.len() - 1]);
        }
    }
    lemma_one_line(line, seq![]);
    assert(Seq::<char>::empty() + line =~= line);
    assert(line.last() == v.last());
    assert(strip_cr(line) == line);
    let lines = lines_seq(line + seq!['\n']);
    assert(lines =~= seq![line]);
    lemma_count_plain(key);
    lemma_count_plain(v);
    lemma_count_concat(key, "="@);
    lemma_count_concat(key + "="@, v);
    assert(count_char("="@, '=') == 1) by {
        assert("="@.len() == 1);
        assert("="@.last() == '=');
        assert("="@.drop_last() =~= Seq::<char>::empty());
        assert(count_char("="@.drop_last(), '=') == 0);
    }
    lemma_first_index_concat(key, "="@ + v);
    assert(key + ("="@ + v) =~= line);
    assert(first_index("="@ + v, '=') == 0);
    assert(line.take(key.len() as int) =~= key);
    assert(line.skip(key.len() as int + 1) =~= v);
    assert(key_value(line) == Some((key, v)));
    assert(lines.drop_last() =~= Seq::<Seq<char>>::empty());
    assert(lines.last() == line);
    assert(pairs_of_lines(lines.drop_last()) =~= Seq::<(Seq<char>, Seq<char>)>::empty());
    assert(state_pairs(line + seq!['\n']) =~= seq![(key, v)]);
    assert(seq![(key, v)].drop_last() =~= Seq::<(Seq<char>, Seq<char>)>::empty());
    lemma_parse_dec(n as int, i32::MAX as nat);
}

} // verus!
