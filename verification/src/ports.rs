//! Ports: which one is meant, which ones are still to come, and by which
//! identifiers an endpoint is known to the operating system.

use vstd::prelude::*;
use vstd::string::StringExecFns;
use vstd::utf8;

use crate::text;

verus! {

// -- Finding ports ----------------------------------------------------------

/// The first name, from `i` on, that has the needle in it.
pub open spec fn first_match(names: Seq<Seq<char>>, needle: Seq<char>, i: int) -> Option<int>
    decreases names.len() - i,
{
    if i < 0 || i >= names.len() {
        None
    } else if text::occurs(names[i], needle) {
        Some(i)
    } else {
        first_match(names, needle, i + 1)
    }
}

/// The place of the first port whose name has the needle in it.
pub fn find_port(names: &Vec<String>, needle: &str) -> (found: Option<usize>)
    ensures
        match (found, first_match(text::views(names@), needle@, 0)) {
            (Some(place), Some(expected)) => place == expected && place < names@.len(),
            (None, None) => true,
            _ => false,
        },
{
    let mut i: usize = 0;
    while i < names.len()
        invariant
            i <= names@.len(),
            first_match(text::views(names@), needle@, i as int) == first_match(
                text::views(names@),
                needle@,
                0,
            ),
        decreases names@.len() - i,
    {
        if text::contains(names[i].as_str(), needle) {
            return Some(i);
        }
        i = i + 1;
    }
    None
}

/// What to do about a port: use the one that is there, make one, or give up.
#[derive(Debug, Clone, Copy, PartialEq, Eq, Structural)]
pub enum ConnectPlan {
    Existing(usize),
    Virtual,
    Missing,
}

/// A port that is there is used; one that is not is made where that is allowed.
pub fn connect_plan(names: &Vec<String>, needle: &str, allow_virtual: bool) -> (plan: ConnectPlan)
    ensures
        match first_match(text::views(names@), needle@, 0) {
            Some(place) => plan matches ConnectPlan::Existing(i) && i == place && i < names@.len(),
            None => plan == if allow_virtual {
                ConnectPlan::Virtual
            } else {
                ConnectPlan::Missing
            },
        },
{
    match find_port(names, needle) {
        Some(place) => ConnectPlan::Existing(place),
        None => if allow_virtual {
            ConnectPlan::Virtual
        } else {
            ConnectPlan::Missing
        },
    }
}

/// One line per port, inputs before outputs.
pub open spec fn port_lines(inputs: Seq<Seq<char>>, outputs: Seq<Seq<char>>) -> Seq<Seq<char>> {
    Seq::new(
        inputs.len() + outputs.len(),
        |i: int|
            if i < inputs.len() {
                "[in]  "@ + inputs[i]
            } else {
                "[out] "@ + outputs[i - inputs.len()]
            },
    )
}

/// One line per port, inputs before outputs.
pub fn list_lines(inputs: &Vec<String>, outputs: &Vec<String>) -> (lines: Vec<String>)
    ensures
        text::views(lines@) == port_lines(text::views(inputs@), text::views(outputs@)),
{
    let mut lines: Vec<String> = Vec::new();
    let ghost all = port_lines(text::views(inputs@), text::views(outputs@));
    assert(text::views(lines@) =~= all.take(0));
    for i in 0..inputs.len()
        invariant
            all == port_lines(text::views(inputs@), text::views(outputs@)),
            text::views(lines@) == all.take(i as int),
    {
        let mut line = "[in]  ".to_owned();
        line.append(inputs[i].as_str());
        let ghost before = text::views(lines@);
        lines.push(line);
        proof {
            assert(all[i as int] == line@);
            assert(text::views(lines@) =~= before.push(line@));
            assert(all.take(i + 1) =~= all.take(i as int).push(line@));
        }
    }
    for i in 0..outputs.len()
        invariant
            all == port_lines(text::views(inputs@), text::views(outputs@)),
            text::views(lines@) == all.take(inputs@.len() + i),
    {
        let mut line = "[out] ".to_owned();
        line.append(outputs[i].as_str());
        let ghost before = text::views(lines@);
        lines.push(line);
        proof {
            assert(all[inputs@.len() + i] == line@);
            assert(text::views(lines@) =~= before.push(line@));
            assert(all.take(inputs@.len() + i + 1) =~= all.take(inputs@.len() + i).push(line@));
        }
    }
    assert(all.take(all.len() as int) =~= all);
    lines
}

// -- Waiting for ports ------------------------------------------------------

/// What comes next while ports are waited for.
#[derive(Debug)]
pub enum WaitStep {
    /// There is nothing left to wait for.
    Done,
    /// Look again in a while, for these names.
    Again(Vec<String>),
    /// Time is up; these names are reported, in ascending order.
    TimedOut(Vec<String>),
}

/// Whether a list holds exactly the names for which the test is true.
pub open spec fn exactly(names: Seq<Seq<char>>, test: spec_fn(Seq<char>) -> bool) -> bool {
    forall|name: Seq<char>| #[trigger] text::holds(names, name) == test(name)
}

/// The names to wait for, each of them once and in ascending order. Without
/// names there is nothing to look at.
pub fn begin_wait(names: &Vec<String>) -> (step: WaitStep)
    ensures
        match step {
            WaitStep::Done => names@.len() == 0,
            WaitStep::Again(waiting) => names@.len() > 0 && text::ascending(text::views(waiting@))
                && exactly(
                text::views(waiting@),
                |name: Seq<char>| text::holds(text::views(names@), name),
            ),
            WaitStep::TimedOut(_) => false,
        },
{
    if names.is_empty() {
        return WaitStep::Done;
    }
    WaitStep::Again(text::sorted_set(names))
}

/// The names of an ascending list that are among others, or those that are not.
fn select(names: &Vec<String>, others: &Vec<String>, wanted: bool) -> (selected: Vec<String>)
    requires
        text::ascending(text::views(names@)),
    ensures
        text::ascending(text::views(selected@)),
        exactly(
            text::views(selected@),
            |name: Seq<char>|
                text::holds(text::views(names@), name) && text::holds(text::views(others@), name)
                    == wanted,
        ),
{
    let mut selected: Vec<String> = Vec::new();
    for i in 0..names.len()
        invariant
            exactly(
                text::views(selected@),
                |name: Seq<char>|
                    text::holds(text::views(names@).take(i as int), name) && text::holds(
                        text::views(others@),
                        name,
                    ) == wanted,
            ),
    {
        let ghost before = text::views(selected@);
        let ghost all = text::views(names@);
        let name = names[i].as_str();
        let picked = text::is_held(others, name) == wanted;
        if picked {
            selected.push(name.to_owned());
            assert(text::views(selected@) =~= before.push(name@));
        }
        proof {
            let test = |other: Seq<char>|
                text::holds(all.take(i + 1), other) && text::holds(text::views(others@), other)
                    == wanted;
            assert forall|other: Seq<char>| #[trigger] text::holds(
                text::views(selected@),
                other,
            ) == test(other) by {
                assert(text::holds(before, other) == (text::holds(all.take(i as int), other)
                    && text::holds(text::views(others@), other) == wanted));
                text::lemma_holds_one_more(all, i as int, other);
                text::lemma_holds_after_push(before, name@, other);
            }
        }
    }
    proof {
        let all = text::views(names@);
        assert(all.take(all.len() as int) =~= all);
    }
    text::sorted_set(&selected)
}

/// Waiting for ports to appear: a name that was seen once is waited for no
/// longer.
pub fn appear_step(waiting: Vec<String>, visible: &Vec<String>, late: bool) -> (step: WaitStep)
    requires
        text::ascending(text::views(waiting@)),
    ensures
        ({
            let missing = |name: Seq<char>|
                text::holds(text::views(waiting@), name) && !text::holds(
                    text::views(visible@),
                    name,
                );
            match step {
                WaitStep::Done => exactly(seq![], missing),
                WaitStep::Again(names) => !late && names@.len() > 0 && text::ascending(
                    text::views(names@),
                ) && exactly(text::views(names@), missing),
                WaitStep::TimedOut(names) => late && names@.len() > 0 && text::ascending(
                    text::views(names@),
                ) && exactly(text::views(names@), missing),
            }
        }),
{
    let missing = select(&waiting, visible, false);
    if missing.is_empty() {
        assert(text::views(missing@) =~= Seq::<Seq<char>>::empty());
        return WaitStep::Done;
    }
    if late {
        WaitStep::TimedOut(missing)
    } else {
        WaitStep::Again(missing)
    }
}

/// Waiting for ports to go away: all of the names are looked for each time.
pub fn disappear_step(waiting: Vec<String>, visible: &Vec<String>, late: bool) -> (step: WaitStep)
    requires
        text::ascending(text::views(waiting@)),
    ensures
        ({
            let present = |name: Seq<char>|
                text::holds(text::views(waiting@), name) && text::holds(
                    text::views(visible@),
                    name,
                );
            match step {
                WaitStep::Done => exactly(seq![], present),
                WaitStep::Again(names) => !late && names@ == waiting@ && !exactly(seq![], present),
                WaitStep::TimedOut(names) => late && names@.len() > 0 && text::ascending(
                    text::views(names@),
                ) && exactly(text::views(names@), present),
            }
        }),
{
    let present = select(&waiting, visible, true);
    if present.is_empty() {
        assert(text::views(present@) =~= Seq::<Seq<char>>::empty());
        return WaitStep::Done;
    }
    if late {
        WaitStep::TimedOut(present)
    } else {
        proof {
            let first = text::views(present@)[0];
            assert(text::holds(text::views(present@), first));
            assert(!text::holds(seq![], first));
        }
        WaitStep::Again(waiting)
    }
}

// -- Identifiers ------------------------------------------------------------

/// The 64-bit FNV-1a hash of a byte string.
pub open spec fn fnv1a(bytes: Seq<u8>) -> u64
    decreases bytes.len(),
{
    if bytes.len() == 0 {
        0xcbf29ce484222325
    } else {
        (((fnv1a(bytes.drop_last()) ^ (bytes.last() as u64)) as nat * 0x100000001b3)
            % 0x1_0000_0000_0000_0000) as u64
    }
}

/// The 64-bit FNV-1a hash of a byte string.
pub fn fnv1a64(bytes: &[u8]) -> (hash: u64)
    ensures
        hash == fnv1a(bytes@),
{
    let mut hash: u64 = 0xcbf29ce484222325;
    for i in 0..bytes.len()
        invariant
            hash == fnv1a(bytes@.take(i as int)),
    {
        let mixed = hash ^ (bytes[i] as u64);
        hash = mixed.wrapping_mul(0x100000001b3);
        assert(bytes@.take(i + 1).drop_last() =~= bytes@.take(i as int));
    }
    assert(bytes@.take(bytes@.len() as int) =~= bytes@);
    hash
}

/// The hash of an endpoint's name, in sixteen hexadecimal digits.
pub open spec fn unique_id(name: Seq<char>) -> Seq<char> {
    text::padded_hexadecimal(fnv1a(utf8::encode_utf8(name)) as nat, 16)
}

/// The hash of an endpoint's name, in sixteen hexadecimal digits.
pub fn unique_id_for(name: &str) -> (id: String)
    ensures
        id@ == unique_id(name@),
{
    let mut id = String::new();
    text::push_padded_hexadecimal(&mut id, fnv1a64(name.as_bytes()), 16);
    assert(id@ =~= unique_id(name@));
    id
}

/// The identifier under which an endpoint is registered: its own in each
/// process, so that a later run is a new device to the MIDI service.
pub fn product_instance_id(name: &str, pid: u32) -> (id: String)
    ensures
        id@ == "midi-pages."@ + unique_id(name@) + "."@ + text::decimal(pid as nat),
{
    let mut id = "midi-pages.".to_owned();
    id.append(unique_id_for(name).as_str());
    id.append(".");
    text::push_decimal(&mut id, pid as u64);
    id
}

/// The identifier of an endpoint's message plugin: a fixed one, with the hash of
/// the name folded in.
pub fn plugin_id(name: &str) -> (id: u128)
    ensures
        id == 0xb1d10001_0000_4000_8000_000000000000u128 ^ (fnv1a(utf8::encode_utf8(name@))
            as u128),
{
    0xb1d10001_0000_4000_8000_000000000000u128 ^ (fnv1a64(name.as_bytes()) as u128)
}

// -- Laws -------------------------------------------------------------------

/// The port found is the first of those with the needle in their names.
pub proof fn law_the_first_match_is_found(names: Seq<Seq<char>>, needle: Seq<char>, from: int, k: int)
    requires
        0 <= from,
    ensures
        first_match(names, needle, from) matches Some(place) ==> {
            &&& from <= place < names.len()
            &&& text::occurs(names[place], needle)
            &&& from <= k < place ==> !text::occurs(names[k], needle)
        },
        from <= k < names.len() && text::occurs(names[k], needle) ==> first_match(
            names,
            needle,
            from,
        ) is Some,
    decreases names.len() - from,
{
    if from < names.len() && !text::occurs(names[from], needle) {
        law_the_first_match_is_found(names, needle, from + 1, k);
    }
}

/// Each port has a line, the inputs before the outputs, marked by its direction.
pub proof fn law_every_port_has_a_line(inputs: Seq<Seq<char>>, outputs: Seq<Seq<char>>, i: int)
    ensures
        port_lines(inputs, outputs).len() == inputs.len() + outputs.len(),
        0 <= i < inputs.len() ==> port_lines(inputs, outputs)[i] == seq![
            '[',
            'i',
            'n',
            ']',
            ' ',
            ' ',
        ] + inputs[i],
        0 <= i < outputs.len() ==> port_lines(inputs, outputs)[inputs.len() + i] == seq![
            '[',
            'o',
            'u',
            't',
            ']',
            ' ',
        ] + outputs[i],
{
    reveal_strlit("[in]  ");
    reveal_strlit("[out] ");
    assert("[in]  "@ =~= seq!['[', 'i', 'n', ']', ' ', ' ']);
    assert("[out] "@ =~= seq!['[', 'o', 'u', 't', ']', ' ']);
}

/// The hash of nothing is the offset basis. A byte more is folded in, and the result
/// multiplied by the prime, modulo two to the power of 64.
pub proof fn law_hash_takes_in_byte_by_byte(bytes: Seq<u8>, byte: u8)
    ensures
        fnv1a(seq![]) == 14695981039346656037u64,
        fnv1a(bytes.push(byte)) as int == ((fnv1a(bytes) ^ (byte as u64)) as int * 1099511628211)
            % 18446744073709551616,
{
    assert(bytes.push(byte).drop_last() =~= bytes);
}

/// The identifier of a name is the hash of its bytes, in sixteen hexadecimal digits.
pub proof fn law_unique_ids_are_the_hash(name: Seq<char>)
    ensures
        unique_id(name).len() == 16,
        text::value_of_hexadecimal(unique_id(name)) == fnv1a(utf8::encode_utf8(name)),
{
    let hash = fnv1a(utf8::encode_utf8(name)) as nat;
    text::law_padded_hexadecimal_is_read_back(hash, 16);
    vstd::arithmetic::power::lemma_pow0(16);
    reveal_with_fuel(vstd::arithmetic::power::pow, 17);
    assert(hash < vstd::arithmetic::power::pow(16, 16));
}

proof fn lemma_folded(hash: u64)
    by (bit_vector)
    ensures
        (0xb1d10001_0000_4000_8000_000000000000u128 ^ (hash as u128)) >> 64u128
            == 0xb1d10001_0000_4000u128,
        ((0xb1d10001_0000_4000_8000_000000000000u128 ^ (hash as u128)) as u64)
            ^ 0x8000_0000_0000_0000u64 == hash,
{
}

/// The upper half of a plugin's identifier is fixed. The lower half holds the hash of the
/// name, so that names with different hashes have different plugins.
pub proof fn law_plugin_ids_hold_the_hash(name: &str, id: u128)
    requires
        call_ensures(plugin_id, (name,), id),
    ensures
        id >> 64u128 == 0xb1d10001_0000_4000u128,
        (id as u64) ^ 0x8000_0000_0000_0000u64 == fnv1a(utf8::encode_utf8(name@)),
{
    lemma_folded(fnv1a(utf8::encode_utf8(name@)));
}

/// The identifier of an endpoint tells the name's hash and the process: two processes never
/// register the same one.
pub proof fn law_every_process_has_its_own_instance(
    name: &str,
    pid: u32,
    id: String,
    other_pid: u32,
    other_id: String,
)
    requires
        call_ensures(product_instance_id, (name, pid), id),
        call_ensures(product_instance_id, (name, other_pid), other_id),
    ensures
        pid == other_pid <==> id@ == other_id@,
        id@ == "midi-pages."@ + unique_id(name@) + seq!['.'] + text::decimal(pid as nat),
{
    reveal_strlit(".");
    assert("."@ =~= seq!['.']);
    let start = "midi-pages."@ + unique_id(name@) + "."@;
    assert(id@.skip(start.len() as int) =~= text::decimal(pid as nat));
    assert(other_id@.skip(start.len() as int) =~= text::decimal(other_pid as nat));
    if id@ == other_id@ {
        text::lemma_decimal_is_injective(pid as nat, other_pid as nat);
    }
}

/// A port that matches is used, the first of them, also where one could be made; without
/// one, a port is made exactly if that is allowed.
pub proof fn law_ports_are_made_only_if_none_matches(
    names: &Vec<String>,
    needle: &str,
    allow_virtual: bool,
    plan: ConnectPlan,
    k: int,
)
    requires
        call_ensures(connect_plan, (names, needle, allow_virtual), plan),
    ensures
        plan matches ConnectPlan::Existing(place) ==> {
            &&& place < names@.len()
            &&& text::occurs(names@[place as int]@, needle@)
            &&& 0 <= k < place ==> !text::occurs(names@[k]@, needle@)
        },
        plan !is Existing && 0 <= k < names@.len() ==> !text::occurs(names@[k]@, needle@),
        plan == ConnectPlan::Virtual ==> allow_virtual,
        plan == ConnectPlan::Missing ==> !allow_virtual,
{
    law_the_first_match_is_found(text::views(names@), needle@, 0, k);
}

/// While ports are waited for to appear: it is over once all of the names are visible, and
/// else goes on, or ends late, with those that are not.
pub proof fn law_waiting_for_ports_to_appear(
    waiting: Vec<String>,
    visible: &Vec<String>,
    late: bool,
    step: WaitStep,
    name: Seq<char>,
)
    requires
        call_ensures(appear_step, (waiting, visible, late), step),
    ensures
        ({
            let missing = text::views(waiting@).contains(name) && !text::views(visible@).contains(
                name,
            );
            &&& step is Done ==> !missing
            &&& step matches WaitStep::Again(names) ==> !late && (text::views(names@).contains(name)
                <==> missing)
            &&& step matches WaitStep::TimedOut(names) ==> late && (text::views(
                names@,
            ).contains(name) <==> missing)
            &&& missing ==> step !is Done
        }),
{
    match step {
        WaitStep::Done => {
            assert(text::holds(seq![], name) == false);
        },
        WaitStep::Again(names) => {
            assert(text::holds(text::views(names@), name) == text::views(names@).contains(name));
        },
        WaitStep::TimedOut(names) => {
            assert(text::holds(text::views(names@), name) == text::views(names@).contains(name));
        },
    }
}

/// While ports are waited for to go away: it is over once none of the names is visible, and
/// else goes on with all of them, or ends late with those that still are.
pub proof fn law_waiting_for_ports_to_disappear(
    waiting: Vec<String>,
    visible: &Vec<String>,
    late: bool,
    step: WaitStep,
    name: Seq<char>,
)
    requires
        call_ensures(disappear_step, (waiting, visible, late), step),
    ensures
        ({
            let present = text::views(waiting@).contains(name) && text::views(visible@).contains(
                name,
            );
            &&& present ==> step !is Done
            &&& step matches WaitStep::Again(names) ==> !late && names@ == waiting@
            &&& step matches WaitStep::TimedOut(names) ==> late && (text::views(
                names@,
            ).contains(name) <==> present)
        }),
{
    match step {
        WaitStep::Done => {
            assert(text::holds(seq![], name) == false);
        },
        WaitStep::Again(_) => {},
        WaitStep::TimedOut(names) => {
            assert(text::holds(text::views(names@), name) == text::views(names@).contains(name));
        },
    }
}

/// Without names there is nothing to wait for; else each name is waited for.
pub proof fn law_waiting_begins_with_all_names(names: &Vec<String>, step: WaitStep, name: Seq<char>)
    requires
        call_ensures(begin_wait, (names,), step),
    ensures
        step is Done <==> names@.len() == 0,
        step !is TimedOut,
        step matches WaitStep::Again(waiting) ==> (text::views(waiting@).contains(name)
            <==> text::views(names@).contains(name)),
{
    if let WaitStep::Again(waiting) = step {
        assert(text::holds(text::views(waiting@), name) == text::views(waiting@).contains(name));
    }
}

} // verus!
