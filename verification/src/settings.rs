//! The settings file: `name=value` lines, one setting per line.
//!
//! The file starts with `version=1`, binds the eleven keys as `key0` to
//! `key10` by their labels, and holds six motion numbers under fixed names.
//! Blank lines are ignored; names and values are trimmed; a setting may occur
//! only once. The motion numbers are carried here as text: reading them as
//! numbers and checking their ranges is left to the caller.

use vstd::prelude::*;
use crate::config::{
    Key, KeyConfig, bindings_of, default_keys, key_with_label, label_of, unknown_key_message,
    is_choice, key_problem, lemma_key_problem_iff, lemma_label_plain, lemma_label_reads_back,
};
use crate::text::{
    decimal, trim, is_space, plain, push_char, push_decimal, chars_of, same_chars, trimmed,
    slice_of, string_of, lemma_trim_plain, lemma_trim_nonempty, lemma_decimal_plain,
    lemma_small_decimal,
};

verus! {

/// The number of motion numbers in the file.
pub const NUMBER_COUNT: usize = 6;

/// The name under which the motion number `i` is stored: base speed, maximum
/// speed, acceleration, precision multiplier, scroll speed and direction
/// grace time, in this order.
pub open spec fn number_name_of(i: int) -> Seq<char> {
    if i == 0 {
        "base_speed"@
    } else if i == 1 {
        "max_speed"@
    } else if i == 2 {
        "acceleration"@
    } else if i == 3 {
        "precision_multiplier"@
    } else if i == 4 {
        "scroll_notches_per_second"@
    } else {
        "direction_grace_ms"@
    }
}

/// The name under which the binding `i` is stored.
pub open spec fn key_name_of(i: nat) -> Seq<char> {
    "key"@ + decimal(i)
}

/// The text of a list of lines, each followed by a line feed.
pub open spec fn lines_text(lines: Seq<Seq<char>>) -> Seq<char>
    decreases lines.len(),
{
    if lines.len() == 0 {
        Seq::empty()
    } else {
        lines_text(lines.drop_last()) + lines.last() + seq!['\n']
    }
}

/// The lines of a settings file for the keys `c` and the motion numbers
/// written as `numbers`.
pub open spec fn settings_lines(c: KeyConfig, numbers: Seq<Seq<char>>) -> Seq<Seq<char>> {
    seq!["version=1"@] + Seq::new(
        11,
        |i: int| key_name_of(i as nat) + "="@ + label_of(bindings_of(c)[i]),
    ) + Seq::new(6, |i: int| number_name_of(i) + "="@ + numbers[i])
}

/// The settings file for the keys `c` and the motion numbers written as
/// `numbers`.
pub open spec fn encoded(c: KeyConfig, numbers: Seq<Seq<char>>) -> Seq<char> {
    lines_text(settings_lines(c, numbers))
}

/// The pieces of `s` between line feeds, in order; there is always one more
/// piece than there are line feeds.
pub open spec fn split_lines(s: Seq<char>) -> Seq<Seq<char>>
    decreases s.len(),
{
    if s.len() == 0 {
        seq![Seq::empty()]
    } else {
        let p = split_lines(s.drop_last());
        if s.last() == '\n' {
            p.push(Seq::empty())
        } else {
            p.update(p.len() - 1, p.last().push(s.last()))
        }
    }
}

/// The position of the first `=` in `l`, which must hold one.
pub open spec fn first_eq(l: Seq<char>) -> int {
    choose|p: int| 0 <= p < l.len() && l[p] == '=' && forall|q: int| 0 <= q < p ==> l[q] != '='
}

/// The value stored under `name` by the last entry with that name.
pub open spec fn lookup(es: Seq<(Seq<char>, Seq<char>)>, name: Seq<char>) -> Option<Seq<char>>
    decreases es.len(),
{
    if es.len() == 0 {
        None
    } else if es.last().0 == name {
        Some(es.last().1)
    } else {
        lookup(es.drop_last(), name)
    }
}

pub open spec fn bad_line_message() -> Seq<char> {
    "Virheellinen asetusrivi."@
}

pub open spec fn repeated_message() -> Seq<char> {
    "Asetus esiintyy kahdesti."@
}

pub open spec fn version_message() -> Seq<char> {
    "Tuntematon asetustiedoston versio."@
}

pub open spec fn missing_key_message() -> Seq<char> {
    "Näppäinsidonta puuttuu."@
}

/// The entries after reading one more line: blank lines add nothing; other
/// lines need an `=`, and their trimmed name must be new.
pub open spec fn add_line(es: Seq<(Seq<char>, Seq<char>)>, l: Seq<char>) -> Result<
    Seq<(Seq<char>, Seq<char>)>,
    Seq<char>,
> {
    if trim(l).len() == 0 {
        Ok(es)
    } else if !l.contains('=') {
        Err(bad_line_message())
    } else {
        let p = first_eq(l);
        let name = trim(l.take(p));
        let value = trim(l.skip(p + 1));
        if lookup(es, name) is Some {
            Err(repeated_message())
        } else {
            Ok(es.push((name, value)))
        }
    }
}

/// The entries of a list of lines, or the message for the first bad line.
pub open spec fn collect_entries(lines: Seq<Seq<char>>) -> Result<
    Seq<(Seq<char>, Seq<char>)>,
    Seq<char>,
>
    decreases lines.len(),
{
    if lines.len() == 0 {
        Ok(Seq::empty())
    } else {
        match collect_entries(lines.drop_last()) {
            Ok(es) => add_line(es, lines.last()),
            Err(e) => Err(e),
        }
    }
}

/// The first `n` bindings read from the entries, or the message for the
/// first that is missing or names no key.
pub open spec fn decode_keys(es: Seq<(Seq<char>, Seq<char>)>, n: nat) -> Result<
    Seq<Key>,
    Seq<char>,
>
    decreases n,
{
    if n == 0 {
        Ok(Seq::empty())
    } else {
        match decode_keys(es, (n - 1) as nat) {
            Err(e) => Err(e),
            Ok(ks) => match lookup(es, key_name_of((n - 1) as nat)) {
                None => Err(missing_key_message()),
                Some(v) => match key_with_label(v) {
                    None => Err(unknown_key_message(v)),
                    Some(k) => Ok(ks.push(k)),
                },
            },
        }
    }
}

/// Whether the file format knows a setting of this name.
pub open spec fn is_known_name(name: Seq<char>) -> bool {
    ||| name == "version"@
    ||| exists|i: nat| i < 11 && name == key_name_of(i)
    ||| exists|i: int| 0 <= i < 6 && name == number_name_of(i)
}

/// What a settings file holds, read as far as this format reads it.
pub struct SettingsView {
    /// The eleven bindings, in the order of `bindings_of`.
    pub bindings: Seq<Key>,
    /// The text of each motion number, in the order of `number_name_of`.
    pub numbers: Seq<Option<Seq<char>>>,
    /// Whether the file holds a setting of a name that the format does not
    /// know.
    pub unknown: bool,
}

/// A settings file read from text, or the message for the first problem met.
pub open spec fn decoded(text: Seq<char>) -> Result<SettingsView, Seq<char>> {
    match collect_entries(split_lines(text)) {
        Err(e) => Err(e),
        Ok(es) => if lookup(es, "version"@) != Some("1"@) {
            Err(version_message())
        } else {
            match decode_keys(es, 11) {
                Err(e) => Err(e),
                Ok(ks) => Ok(
                    SettingsView {
                        bindings: ks,
                        numbers: Seq::new(6, |i: int| lookup(es, number_name_of(i))),
                        unknown: exists|i: int| 0 <= i < es.len() && !is_known_name(es[i].0),
                    },
                ),
            }
        },
    }
}

/// A settings file read from text.
pub struct DecodedSettings {
    /// The bindings read from the file; activation and dragging are held.
    pub keys: KeyConfig,
    /// The text of each motion number, in the order of `number_name`; `None`
    /// where the file does not hold it.
    pub numbers: Vec<Option<String>>,
    /// Whether the file holds a setting of a name that the format does not
    /// know.
    pub unknown: bool,
}

impl DecodedSettings {
    pub open spec fn view_numbers(&self) -> Seq<Option<Seq<char>>> {
        self.numbers@.map_values(
            |n: Option<String>|
                match n {
                    Some(s) => Some(s@),
                    None => None,
                },
        )
    }

    pub open spec fn view(&self) -> SettingsView {
        SettingsView {
            bindings: bindings_of(self.keys),
            numbers: self.view_numbers(),
            unknown: self.unknown,
        }
    }
}

/// The name under which the motion number `i` is stored.
pub fn number_name(i: usize) -> (name: &'static str)
    requires
        i < NUMBER_COUNT,
    ensures
        name@ == number_name_of(i as int),
{
    if i == 0 {
        "base_speed"
    } else if i == 1 {
        "max_speed"
    } else if i == 2 {
        "acceleration"
    } else if i == 3 {
        "precision_multiplier"
    } else if i == 4 {
        "scroll_notches_per_second"
    } else {
        "direction_grace_ms"
    }
}

proof fn lemma_lines_text_push(lines: Seq<Seq<char>>, l: Seq<char>)
    ensures
        lines_text(lines.push(l)) == lines_text(lines) + l + seq!['\n'],
{
    assert(lines.push(l).drop_last() =~= lines);
}

/// The settings file for the keys `keys` and the motion numbers written as
/// `numbers`: `version=1`, the bindings `key0` to `key10` by label, then the
/// numbers by name, each line ended by a line feed.
pub fn encode_settings(keys: &KeyConfig, numbers: &[String; 6]) -> (text: String)
    ensures
        text@ == encoded(*keys, numbers@.map_values(|s: String| s@)),
{
    let ghost nums = numbers@.map_values(|s: String| s@);
    let ghost lines = settings_lines(*keys, nums);
    let mut text = String::from_str("version=1");
    push_char(&mut text, '\n');
    proof {
        lemma_lines_text_push(Seq::empty(), "version=1"@);
        assert(lines.take(1) =~= Seq::<Seq<char>>::empty().push("version=1"@));
        assert(Seq::<Seq<char>>::empty().push("version=1"@).drop_last() =~= Seq::<
            Seq<char>,
        >::empty());
    }
    let b = keys.bindings();
    let mut i: usize = 0;
    while i < 11
        invariant
            i <= 11,
            b@ == bindings_of(*keys),
            lines == settings_lines(*keys, nums),
            text@ == lines_text(lines.take(1 + i)),
        decreases 11 - i,
    {
        let ghost before = text@;
        text.append("key");
        push_decimal(&mut text, i as u8);
        push_char(&mut text, '=');
        let label = b[i].label();
        text.append(label.as_str());
        push_char(&mut text, '\n');
        proof {
            let l = key_name_of(i as nat) + "="@ + label_of(bindings_of(*keys)[i as int]);
            reveal_strlit("=");
            assert(lines[1 + i] == l);
            assert(lines.take(1 + i + 1) =~= lines.take(1 + i).push(l));
            lemma_lines_text_push(lines.take(1 + i), l);
            assert(text@ =~= before + l + seq!['\n']);
        }
        i = i + 1;
    }
    let mut j: usize = 0;
    while j < 6
        invariant
            j <= 6,
            nums == numbers@.map_values(|s: String| s@),
            lines == settings_lines(*keys, nums),
            text@ == lines_text(lines.take(12 + j)),
        decreases 6 - j,
    {
        let ghost before = text@;
        text.append(number_name(j));
        push_char(&mut text, '=');
        text.append(numbers[j].as_str());
        push_char(&mut text, '\n');
        proof {
            let l = number_name_of(j as int) + "="@ + nums[j as int];
            reveal_strlit("=");
            assert(lines[12 + j] == l);
            assert(lines.take(12 + j + 1) =~= lines.take(12 + j).push(l));
            lemma_lines_text_push(lines.take(12 + j), l);
            assert(text@ =~= before + l + seq!['\n']);
        }
        j = j + 1;
    }
    assert(lines.take(18) =~= lines);
    text
}

/// One `name=value` setting, both trimmed.
struct Entry {
    name: Vec<char>,
    value: Vec<char>,
}

spec fn entries_view(es: Seq<Entry>) -> Seq<(Seq<char>, Seq<char>)> {
    es.map_values(|e: Entry| (e.name@, e.value@))
}

proof fn lemma_entries_view_take(es: Seq<Entry>, j: int)
    requires
        0 < j <= es.len(),
    ensures
        entries_view(es.take(j)).drop_last() == entries_view(es.take(j - 1)),
        entries_view(es.take(j)).last() == (es[j - 1].name@, es[j - 1].value@),
        entries_view(es.take(j)).len() == j,
{
    assert(entries_view(es.take(j)).drop_last() =~= entries_view(es.take(j - 1)));
}

/// The entry with the given name, searched from the last.
fn find_entry(es: &Vec<Entry>, name: &Vec<char>) -> (r: Option<usize>)
    ensures
        match r {
            Some(i) => i < es.len() && lookup(entries_view(es@), name@) == Some(es@[i as int].value@),
            None => lookup(entries_view(es@), name@) is None,
        },
{
    let mut j = es.len();
    assert(es@.take(j as int) =~= es@);
    while j > 0
        invariant
            j <= es.len(),
            lookup(entries_view(es@), name@) == lookup(entries_view(es@.take(j as int)), name@),
        decreases j,
    {
        proof {
            lemma_entries_view_take(es@, j as int);
        }
        if same_chars(&es[j - 1].name, name) {
            return Some(j - 1);
        }
        j = j - 1;
    }
    None
}

proof fn lemma_first_eq(l: Seq<char>, p: int)
    requires
        0 <= p < l.len(),
        l[p] == '=',
        forall|q: int| 0 <= q < p ==> l[q] != '=',
    ensures
        first_eq(l) == p,
{
    let f = first_eq(l);
    assert(0 <= f < l.len() && l[f] == '=' && forall|q: int| 0 <= q < f ==> l[q] != '=');
}

/// Reads one line into the entries.
fn read_line(es: &mut Vec<Entry>, line: &Vec<char>) -> (r: Result<(), String>)
    ensures
        match r {
            Ok(_) => add_line(entries_view(old(es)@), line@) == Ok::<_, Seq<char>>(entries_view(final(es)@)),
            Err(e) => add_line(entries_view(old(es)@), line@) == Err::<Seq<(Seq<char>, Seq<char>)>, _>(e@),
        },
{
    let t = trimmed(line);
    if t.len() == 0 {
        return Ok(());
    }
    let mut p: usize = 0;
    while p < line.len() && line[p] != '='
        invariant
            p <= line.len(),
            forall|q: int| 0 <= q < p ==> line@[q] != '=',
        decreases line.len() - p,
    {
        p = p + 1;
    }
    if p == line.len() {
        return Err(String::from_str("Virheellinen asetusrivi."));
    }
    proof {
        lemma_first_eq(line@, p as int);
    }
    let head = slice_of(line, 0, p);
    let tail = slice_of(line, p + 1, line.len());
    assert(head@ =~= line@.take(p as int));
    assert(tail@ =~= line@.skip(p + 1));
    let name = trimmed(&head);
    let value = trimmed(&tail);
    if find_entry(es, &name).is_some() {
        return Err(String::from_str("Asetus esiintyy kahdesti."));
    }
    let ghost before = es@;
    es.push(Entry { name, value });
    assert(entries_view(es@) =~= entries_view(before).push((name@, value@)));
    Ok(())
}

proof fn lemma_split_lines_nonempty(s: Seq<char>)
    ensures
        split_lines(s).len() >= 1,
    decreases s.len(),
{
    if s.len() > 0 {
        lemma_split_lines_nonempty(s.drop_last());
    }
}

/// Reading further never changes the lines that are already complete.
proof fn lemma_split_lines_prefix(s: Seq<char>, i: int, j: int)
    requires
        0 <= i <= j <= s.len(),
    ensures
        split_lines(s.take(j)).len() >= split_lines(s.take(i)).len(),
        split_lines(s.take(j)).take(split_lines(s.take(i)).len() - 1) == split_lines(
            s.take(i),
        ).drop_last(),
    decreases j - i,
{
    lemma_split_lines_nonempty(s.take(i));
    if j == i {
        assert(split_lines(s.take(j)).take(split_lines(s.take(i)).len() - 1) =~= split_lines(
            s.take(i),
        ).drop_last());
    } else {
        lemma_split_lines_prefix(s, i, j - 1);
        lemma_split_lines_nonempty(s.take(j - 1));
        assert(s.take(j).drop_last() =~= s.take(j - 1));
        let p = split_lines(s.take(j - 1));
        let q = split_lines(s.take(j));
        let n = split_lines(s.take(i)).len() - 1;
        assert(q.take(n) =~= p.take(n));
    }
}

/// A bad line stays the first problem whatever lines follow.
proof fn lemma_collect_error_stays(a: Seq<Seq<char>>, b: Seq<Seq<char>>, e: Seq<char>)
    requires
        collect_entries(a) == Err::<Seq<(Seq<char>, Seq<char>)>, _>(e),
    ensures
        collect_entries(a + b) == Err::<Seq<(Seq<char>, Seq<char>)>, _>(e),
    decreases b.len(),
{
    if b.len() == 0 {
        assert(a + b =~= a);
    } else {
        lemma_collect_error_stays(a, b.drop_last(), e);
        assert((a + b).drop_last() =~= a + b.drop_last());
    }
}

/// The entries of a settings text, or the message for its first bad line.
fn read_entries(text: &str) -> (r: Result<Vec<Entry>, String>)
    ensures
        match r {
            Ok(es) => collect_entries(split_lines(text@)) == Ok::<_, Seq<char>>(entries_view(es@)),
            Err(e) => collect_entries(split_lines(text@)) == Err::<Seq<(Seq<char>, Seq<char>)>, _>(e@),
        },
{
    let t = chars_of(text);
    let mut es: Vec<Entry> = Vec::new();
    let mut cur: Vec<char> = Vec::new();
    let ghost mut done: Seq<Seq<char>> = Seq::empty();
    let mut i: usize = 0;
    assert(t@.take(0) =~= Seq::<char>::empty());
    assert(done.push(cur@) =~= seq![Seq::<char>::empty()]);
    assert(entries_view(es@) =~= Seq::<(Seq<char>, Seq<char>)>::empty());
    while i < t.len()
        invariant
            t@ == text@,
            i <= t.len(),
            split_lines(t@.take(i as int)) == done.push(cur@),
            collect_entries(done) == Ok::<_, Seq<char>>(entries_view(es@)),
        decreases t.len() - i,
    {
        let c = t[i];
        assert(t@.take(i + 1).drop_last() =~= t@.take(i as int));
        if c == '\n' {
            assert(done.push(cur@).drop_last() =~= done);
            match read_line(&mut es, &cur) {
                Ok(_) => {},
                Err(e) => {
                    proof {
                        let whole = split_lines(t@);
                        lemma_split_lines_prefix(t@, i + 1, t@.len() as int);
                        assert(t@.take(t@.len() as int) =~= t@);
                        assert(split_lines(t@.take(i + 1)) == done.push(cur@).push(Seq::empty()));
                        let a = done.push(cur@);
                        assert(whole.take(a.len() as int) == a);
                        assert(whole =~= a + whole.skip(a.len() as int));
                        lemma_collect_error_stays(a, whole.skip(a.len() as int), e@);
                    }
                    return Err(e);
                },
            }
            proof {
                done = done.push(cur@);
            }
            cur = Vec::new();
            assert(split_lines(t@.take(i + 1)) =~= done.push(cur@));
        } else {
            let ghost old_cur = cur@;
            cur.push(c);
            proof {
                let p = done.push(old_cur);
                assert(p.update(p.len() - 1, p.last().push(c)) =~= done.push(cur@));
            }
        }
        i = i + 1;
    }
    assert(t@.take(t@.len() as int) =~= t@);
    assert(done.push(cur@).drop_last() =~= done);
    match read_line(&mut es, &cur) {
        Ok(_) => Ok(es),
        Err(e) => Err(e),
    }
}

/// The name under which the binding `i` is stored.
fn key_name(i: usize) -> (name: Vec<char>)
    requires
        i < 11,
    ensures
        name@ == key_name_of(i as nat),
{
    let mut s = String::from_str("key");
    push_decimal(&mut s, i as u8);
    chars_of(s.as_str())
}

/// Whether the file format knows a setting of this name.
fn is_known(name: &Vec<char>) -> (r: bool)
    ensures
        r == is_known_name(name@),
{
    if same_chars(name, &chars_of("version")) {
        return true;
    }
    let mut i: usize = 0;
    while i < 11
        invariant
            i <= 11,
            name@ != "version"@,
            forall|m: nat| m < i ==> name@ != key_name_of(m),
        decreases 11 - i,
    {
        if same_chars(name, &key_name(i)) {
            return true;
        }
        i = i + 1;
    }
    let mut j: usize = 0;
    while j < NUMBER_COUNT
        invariant
            j <= NUMBER_COUNT,
            name@ != "version"@,
            forall|m: nat| m < 11 ==> name@ != key_name_of(m),
            forall|m: int| 0 <= m < j ==> name@ != number_name_of(m),
        decreases NUMBER_COUNT - j,
    {
        if same_chars(name, &chars_of(number_name(j))) {
            return true;
        }
        j = j + 1;
    }
    false
}

proof fn lemma_decode_keys_error_stays(es: Seq<(Seq<char>, Seq<char>)>, m: nat, n: nat, e: Seq<char>)
    requires
        m <= n,
        decode_keys(es, m) == Err::<Seq<Key>, _>(e),
    ensures
        decode_keys(es, n) == Err::<Seq<Key>, _>(e),
    decreases n - m,
{
    if m < n {
        lemma_decode_keys_error_stays(es, m, (n - 1) as nat, e);
    }
}

proof fn lemma_decode_keys_len(es: Seq<(Seq<char>, Seq<char>)>, n: nat)
    ensures
        decode_keys(es, n) matches Ok(ks) ==> ks.len() == n,
    decreases n,
{
    if n > 0 {
        lemma_decode_keys_len(es, (n - 1) as nat);
    }
}

/// Reads a settings file: the bindings by label, the motion numbers as text,
/// and whether unknown settings are present. Errors name the first problem
/// met: a line without `=`, a setting given twice, a version other than
/// `1`, a missing binding, or a label that names no key.
pub fn decode_settings(text: &str) -> (r: Result<DecodedSettings, String>)
    ensures
        match r {
            Ok(d) => {
                &&& decoded(text@) == Ok::<_, Seq<char>>(d.view())
                &&& d.numbers.len() == NUMBER_COUNT
                &&& d.keys.activation_mode == default_keys().activation_mode
                &&& d.keys.drag_mode == default_keys().drag_mode
            },
            Err(e) => decoded(text@) == Err::<SettingsView, _>(e@),
        },
{
    let es = match read_entries(text) {
        Ok(es) => es,
        Err(e) => return Err(e),
    };
    let ghost ev = entries_view(es@);
    let version_name = chars_of("version");
    let version_ok = match find_entry(&es, &version_name) {
        Some(i) => same_chars(&es[i].value, &chars_of("1")),
        None => false,
    };
    if !version_ok {
        return Err(String::from_str("Tuntematon asetustiedoston versio."));
    }
    assert(lookup(ev, "version"@) == Some("1"@));
    let mut ks: Vec<Key> = Vec::new();
    let mut i: usize = 0;
    while i < 11
        invariant
            i <= 11,
            ev == entries_view(es@),
            collect_entries(split_lines(text@)) == Ok::<_, Seq<char>>(ev),
            lookup(ev, "version"@) == Some("1"@),
            decode_keys(ev, i as nat) == Ok::<_, Seq<char>>(ks@),
        decreases 11 - i,
    {
        let name = key_name(i);
        match find_entry(&es, &name) {
            None => {
                proof {
                    lemma_decode_keys_error_stays(ev, (i + 1) as nat, 11, missing_key_message());
                }
                return Err(String::from_str("Näppäinsidonta puuttuu."));
            },
            Some(j) => match Key::parse_chars(&es[j].value) {
                None => {
                    let mut e = String::from_str("Tuntematon näppäin: ");
                    let value = string_of(&es[j].value, 0, es[j].value.len());
                    assert(value@ =~= es@[j as int].value@);
                    e.append(value.as_str());
                    proof {
                        lemma_decode_keys_error_stays(ev, (i + 1) as nat, 11, e@);
                    }
                    return Err(e);
                },
                Some(k) => {
                    ks.push(k);
                },
            },
        }
        i = i + 1;
    }
    proof {
        lemma_decode_keys_len(ev, 11);
    }
    let mut keys = KeyConfig::new();
    keys.set_bindings([ks[0], ks[1], ks[2], ks[3], ks[4], ks[5], ks[6], ks[7], ks[8], ks[9], ks[10]]);
    assert(bindings_of(keys) =~= ks@);
    let mut numbers: Vec<Option<String>> = Vec::new();
    let mut j: usize = 0;
    while j < NUMBER_COUNT
        invariant
            j <= NUMBER_COUNT,
            ev == entries_view(es@),
            numbers.len() == j,
            forall|m: int|
                0 <= m < j ==> match #[trigger] numbers@[m] {
                    Some(s) => lookup(ev, number_name_of(m)) == Some(s@),
                    None => lookup(ev, number_name_of(m)) is None,
                },
        decreases NUMBER_COUNT - j,
    {
        match find_entry(&es, &chars_of(number_name(j))) {
            Some(x) => {
                let value = string_of(&es[x].value, 0, es[x].value.len());
                assert(value@ =~= es@[x as int].value@);
                numbers.push(Some(value));
            },
            None => {
                numbers.push(None);
            },
        }
        j = j + 1;
    }
    let mut unknown = false;
    let mut m: usize = 0;
    while m < es.len()
        invariant
            m <= es.len(),
            ev == entries_view(es@),
            unknown == exists|q: int| 0 <= q < m && !is_known_name(ev[q].0),
        decreases es.len() - m,
    {
        assert(ev[m as int].0 == es@[m as int].name@);
        if !is_known(&es[m].name) {
            unknown = true;
        }
        m = m + 1;
    }
    let d = DecodedSettings { keys, numbers, unknown };
    assert(d.view_numbers() =~= Seq::new(6, |q: int| lookup(ev, number_name_of(q))));
    Ok(d)
}

proof fn lemma_split_append(s: Seq<char>, t: Seq<char>)
    requires
        !t.contains('\n'),
    ensures
        split_lines(s + t) == split_lines(s).update(
            split_lines(s).len() - 1,
            split_lines(s).last() + t,
        ),
    decreases t.len(),
{
    lemma_split_lines_nonempty(s);
    let p = split_lines(s);
    if t.len() == 0 {
        assert(s + t =~= s);
        assert(p.update(p.len() - 1, p.last() + t) =~= p);
    } else {
        lemma_split_append(s, t.drop_last());
        assert((s + t).drop_last() =~= s + t.drop_last());
        assert(t.last() != '\n') by {
            assert(t[t.len() - 1] == t.last());
        }
        let q = p.update(p.len() - 1, p.last() + t.drop_last());
        assert((p.last() + t.drop_last()).push(t.last()) =~= p.last() + t);
        assert(q.update(q.len() - 1, q.last().push(t.last())) =~= p.update(
            p.len() - 1,
            p.last() + t,
        ));
    }
}

/// Splitting the text of lines without line feeds gives those lines back,
/// and an empty piece after the last line feed.
proof fn lemma_split_lines_text(ls: Seq<Seq<char>>)
    requires
        forall|i: int| 0 <= i < ls.len() ==> !(#[trigger] ls[i]).contains('\n'),
    ensures
        split_lines(lines_text(ls)) == ls.push(Seq::empty()),
    decreases ls.len(),
{
    if ls.len() == 0 {
        assert(split_lines(Seq::empty()) =~= seq![Seq::<char>::empty()]);
        assert(ls.push(Seq::empty()) =~= seq![Seq::<char>::empty()]);
    } else {
        let front = ls.drop_last();
        lemma_split_lines_text(front);
        let l = ls.last();
        assert(!l.contains('\n')) by {
            assert(ls[ls.len() - 1] == l);
        }
        lemma_split_append(lines_text(front), l);
        let p = front.push(Seq::empty());
        assert(p.update(p.len() - 1, p.last() + l) =~= ls) by {
            assert(Seq::<char>::empty() + l =~= l);
        }
        let whole = lines_text(front) + l + seq!['\n'];
        assert(whole.drop_last() =~= lines_text(front) + l);
        assert(lines_text(ls) == whole);
    }
}

proof fn lemma_lookup_none(es: Seq<(Seq<char>, Seq<char>)>, name: Seq<char>)
    requires
        forall|j: int| 0 <= j < es.len() ==> (#[trigger] es[j]).0 != name,
    ensures
        lookup(es, name) is None,
    decreases es.len(),
{
    if es.len() > 0 {
        assert(es.last() == es[es.len() - 1]);
        lemma_lookup_none(es.drop_last(), name);
    }
}

proof fn lemma_lookup_found(es: Seq<(Seq<char>, Seq<char>)>, j: int)
    requires
        0 <= j < es.len(),
        forall|m: int| 0 <= m < es.len() && m != j ==> (#[trigger] es[m]).0 != es[j].0,
    ensures
        lookup(es, es[j].0) == Some(es[j].1),
    decreases es.len(),
{
    assert(es.last() == es[es.len() - 1]);
    if j < es.len() - 1 {
        let f = es.drop_last();
        assert(f[j] == es[j]);
        lemma_lookup_found(f, j);
    }
}

/// Lines `name=value` with plain, distinct names and trimmed values give the
/// entries `(name, value)` in order.
proof fn lemma_collect_entry_lines(names: Seq<Seq<char>>, values: Seq<Seq<char>>)
    requires
        names.len() == values.len(),
        forall|i: int| 0 <= i < names.len() ==> plain(#[trigger] names[i]),
        forall|i: int| 0 <= i < values.len() ==> trim(#[trigger] values[i]) == values[i],
        forall|i: int, j: int| 0 <= i < j < names.len() ==> names[i] != names[j],
    ensures
        collect_entries(Seq::new(names.len(), |i: int| names[i] + "="@ + values[i])) == Ok::<
            _,
            Seq<char>,
        >(Seq::new(names.len(), |i: int| (names[i], values[i]))),
    decreases names.len(),
{
    reveal_strlit("=");
    let lines = Seq::new(names.len(), |i: int| names[i] + "="@ + values[i]);
    let es = Seq::new(names.len(), |i: int| (names[i], values[i]));
    if names.len() == 0 {
        assert(es =~= Seq::<(Seq<char>, Seq<char>)>::empty());
    } else {
        let n = names.len() - 1;
        let fn_ = names.drop_last();
        let fv = values.drop_last();
        assert forall|i: int| 0 <= i < fn_.len() implies plain(#[trigger] fn_[i]) by {
            assert(fn_[i] == names[i]);
        }
        assert forall|i: int| 0 <= i < fv.len() implies trim(#[trigger] fv[i]) == fv[i] by {
            assert(fv[i] == values[i]);
        }
        lemma_collect_entry_lines(fn_, fv);
        assert(lines.drop_last() =~= Seq::new(fn_.len(), |i: int| fn_[i] + "="@ + fv[i]));
        let front = Seq::new(fn_.len(), |i: int| (fn_[i], fv[i]));
        let name = names[n];
        let value = values[n];
        let l = lines.last();
        assert(l == name + "="@ + value);
        let p = name.len() as int;
        assert(l[p] == '=');
        assert forall|q: int| 0 <= q < p implies l[q] != '=' by {
            assert(l[q] == name[q]);
        }
        lemma_first_eq(l, p);
        assert(l.contains('='));
        lemma_trim_nonempty(l, p);
        assert(l.take(p) =~= name);
        assert(l.skip(p + 1) =~= value);
        lemma_trim_plain(name);
        assert forall|j: int| 0 <= j < front.len() implies (#[trigger] front[j]).0 != name by {
            assert(names[j] != names[n]);
        }
        lemma_lookup_none(front, name);
        assert(front.push((name, value)) =~= es);
    }
}

/// The names of the eighteen lines of a settings file, in order.
spec fn line_names() -> Seq<Seq<char>> {
    seq!["version"@] + Seq::new(11, |i: int| key_name_of(i as nat)) + Seq::new(
        6,
        |i: int| number_name_of(i),
    )
}

/// The values of the eighteen lines of a settings file, in order.
spec fn line_values(c: KeyConfig, numbers: Seq<Seq<char>>) -> Seq<Seq<char>> {
    seq!["1"@] + Seq::new(11, |i: int| label_of(bindings_of(c)[i])) + numbers
}

proof fn lemma_key_names(i: nat, j: nat)
    requires
        i <= 10,
        j <= 10,
        key_name_of(i) == key_name_of(j),
    ensures
        i == j,
{
    lemma_small_decimal(i);
    lemma_small_decimal(j);
    reveal_strlit("key");
    assert(key_name_of(i).skip(3) =~= decimal(i));
    assert(key_name_of(j).skip(3) =~= decimal(j));
    let di = decimal(i);
    let dj = decimal(j);
    assert(di == dj);
    assert(crate::text::digit_of(i % 10) as u32 == 48 + i % 10);
    assert(crate::text::digit_of(j % 10) as u32 == 48 + j % 10);
    assert(crate::text::digit_of(i / 10) as u32 == 48 + i / 10);
    assert(crate::text::digit_of(j / 10) as u32 == 48 + j / 10);
    if i < 10 && j < 10 {
        assert(di[0] == dj[0]);
    } else if i >= 10 && j >= 10 {
        assert(di[0] == dj[0]);
        assert(di[1] == dj[1]);
    } else {
        assert(di.len() != dj.len());
    }
}

proof fn lemma_line_names()
    ensures
        line_names().len() == 18,
        forall|i: int| 0 <= i < 18 ==> plain(#[trigger] line_names()[i]),
        forall|i: int, j: int| 0 <= i < j < 18 ==> line_names()[i] != line_names()[j],
{
    reveal_strlit("version");
    reveal_strlit("key");
    reveal_strlit("base_speed");
    reveal_strlit("max_speed");
    reveal_strlit("acceleration");
    reveal_strlit("precision_multiplier");
    reveal_strlit("scroll_notches_per_second");
    reveal_strlit("direction_grace_ms");
    let ns = line_names();
    assert forall|i: int| 0 <= i < 18 implies plain(#[trigger] ns[i]) by {
        if 1 <= i < 12 {
            lemma_decimal_plain((i - 1) as nat);
            let d = decimal((i - 1) as nat);
            assert(ns[i] == "key"@ + d);
            assert forall|q: int| 0 <= q < ns[i].len() implies !is_space(#[trigger] ns[i][q])
                && ns[i][q] != '=' && ns[i][q] != '\n' by {
                if q >= 3 {
                    assert(ns[i][q] == d[q - 3]);
                }
            }
        }
    }
    assert forall|i: int, j: int| 0 <= i < j < 18 implies ns[i] != ns[j] by {
        if 1 <= i < 12 && 1 <= j < 12 {
            if ns[i] == ns[j] {
                lemma_key_names((i - 1) as nat, (j - 1) as nat);
            }
        } else {
            if 1 <= i < 12 {
                assert(ns[i][0] == 'k');
            }
            if 1 <= j < 12 {
                assert(ns[j][0] == 'k');
            }
            assert(ns[i][0] != ns[j][0] || ns[i].len() != ns[j].len());
        }
    }
}

proof fn lemma_decode_keys_written(
    es: Seq<(Seq<char>, Seq<char>)>,
    c: KeyConfig,
    n: nat,
)
    requires
        n <= 11,
        es.len() == 18,
        forall|i: int| 0 <= i < 11 ==> is_choice(#[trigger] bindings_of(c)[i]),
        forall|i: int|
            0 <= i < 11 ==> lookup(es, #[trigger] key_name_of(i as nat)) == Some(
                label_of(bindings_of(c)[i]),
            ),
    ensures
        decode_keys(es, n) == Ok::<_, Seq<char>>(bindings_of(c).take(n as int)),
    decreases n,
{
    let b = bindings_of(c);
    if n == 0 {
        assert(b.take(0) =~= Seq::<Key>::empty());
    } else {
        lemma_decode_keys_written(es, c, (n - 1) as nat);
        let i = n - 1;
        assert(lookup(es, key_name_of(i as nat)) == Some(label_of(b[i])));
        assert(is_choice(b[i]));
        lemma_label_reads_back(b[i]);
        assert(b.take(i).push(b[i]) =~= b.take(n as int));
    }
}

/// Reading back a written settings file gives its bindings and the text of
/// each motion number, with no unknown setting, for valid bindings and
/// number texts that are trimmed and hold no line feed.
pub proof fn lemma_settings_round_trip(c: KeyConfig, numbers: Seq<Seq<char>>)
    requires
        key_problem(c) is None,
        numbers.len() == 6,
        forall|i: int|
            0 <= i < 6 ==> !(#[trigger] numbers[i]).contains('\n') && trim(numbers[i]) == numbers[i],
    ensures
        decoded(encoded(c, numbers)) == Ok::<_, Seq<char>>(
            SettingsView {
                bindings: bindings_of(c),
                numbers: Seq::new(6, |i: int| Some(numbers[i])),
                unknown: false,
            },
        ),
{
    reveal_strlit("version=1");
    reveal_strlit("version");
    reveal_strlit("=");
    reveal_strlit("1");
    let b = bindings_of(c);
    lemma_key_problem_iff(c);
    lemma_line_names();
    let names = line_names();
    let values = line_values(c, numbers);
    assert(values.len() == 18);
    assert forall|i: int| 0 <= i < 18 implies trim(#[trigger] values[i]) == values[i] by {
        if i == 0 {
            lemma_trim_plain("1"@);
        } else if i < 12 {
            lemma_label_plain(b[i - 1]);
            lemma_trim_plain(values[i]);
        } else {
            assert(values[i] == numbers[i - 12]);
        }
    }
    let lines = settings_lines(c, numbers);
    assert(lines =~= Seq::new(18, |i: int| names[i] + "="@ + values[i])) by {
        assert("version=1"@ =~= "version"@ + "="@ + "1"@);
    }
    lemma_collect_entry_lines(names, values);
    let es = Seq::new(18, |i: int| (names[i], values[i]));
    assert forall|i: int| 0 <= i < 18 implies !(#[trigger] lines[i]).contains('\n') by {
        let l = lines[i];
        assert(l == names[i] + "="@ + values[i]);
        if l.contains('\n') {
            let q = choose|q: int| 0 <= q < l.len() && l[q] == '\n';
            let nl = names[i].len() as int;
            if q < nl {
                assert(l[q] == names[i][q]);
            } else if q > nl {
                assert(l[q] == values[i][q - nl - 1]);
                if 1 <= i < 12 {
                    lemma_label_plain(b[i - 1]);
                } else if i >= 12 {
                    assert(values[i] == numbers[i - 12]);
                }
            }
        }
    }
    lemma_split_lines_text(lines);
    assert(lines.push(Seq::empty()).drop_last() =~= lines);
    assert(trim(Seq::<char>::empty()).len() == 0);
    assert(collect_entries(split_lines(encoded(c, numbers))) == Ok::<_, Seq<char>>(es));
    assert forall|m: int, j: int| 0 <= m < 18 && 0 <= j < 18 && m != j implies (#[trigger] es[m]).0
        != (#[trigger] es[j]).0 by {
        if m < j {
            assert(names[m] != names[j]);
        } else {
            assert(names[j] != names[m]);
        }
    }
    lemma_lookup_found(es, 0);
    assert(lookup(es, "version"@) == Some("1"@));
    assert forall|i: int| 0 <= i < 11 implies lookup(es, #[trigger] key_name_of(i as nat)) == Some(
        label_of(b[i]),
    ) by {
        lemma_lookup_found(es, i + 1);
    }
    lemma_decode_keys_written(es, c, 11);
    assert(b.take(11) =~= b);
    let view_numbers = Seq::new(6, |i: int| lookup(es, number_name_of(i)));
    assert(view_numbers =~= Seq::new(6, |i: int| Some(numbers[i]))) by {
        assert forall|i: int| 0 <= i < 6 implies #[trigger] view_numbers[i] == Some(numbers[i]) by {
            lemma_lookup_found(es, i + 12);
        }
    }
    assert forall|q: int| 0 <= q < es.len() implies is_known_name(#[trigger] es[q].0) by {
        if 1 <= q < 12 {
            assert(es[q].0 == key_name_of((q - 1) as nat));
        } else if q >= 12 {
            assert(es[q].0 == number_name_of(q - 12));
        }
    }
}

} // verus!
