//! Stopping a running proxy: which process is meant, and which console events
//! end one.

use vstd::prelude::*;

use crate::text;

verus! {

/// The process that `--stop` names. Without an argument the option holds zero,
/// which names none.
pub fn stop_target(raw: u32) -> (target: Option<u32>)
    ensures
        target == if raw == 0 {
            None
        } else {
            Some(raw)
        },
{
    if raw == 0 {
        None
    } else {
        Some(raw)
    }
}

/// Which of the processes found is to be stopped.
#[derive(Debug, Clone, Copy, PartialEq, Eq, Structural)]
pub enum StopChoice {
    /// None is running.
    Nothing,
    /// The only one.
    Process(u32),
    /// More than one is running, and none was named.
    Ambiguous,
}

/// Without a named process the only one that runs is meant.
pub fn choose_process(pids: &Vec<u32>) -> (choice: StopChoice)
    ensures
        choice == if pids@.len() == 0 {
            StopChoice::Nothing
        } else if pids@.len() == 1 {
            StopChoice::Process(pids@[0])
        } else {
            StopChoice::Ambiguous
        },
{
    if pids.len() == 0 {
        StopChoice::Nothing
    } else if pids.len() == 1 {
        StopChoice::Process(pids[0])
    } else {
        StopChoice::Ambiguous
    }
}

/// Whether a Win32 console control event ends the proxy: Ctrl-C, Ctrl-Break, the
/// close button, logoff and shutdown.
pub fn is_shutdown_event(ctrl_type: u32) -> (yes: bool)
    ensures
        yes == (ctrl_type == 0 || ctrl_type == 1 || ctrl_type == 2 || ctrl_type == 5 || ctrl_type
            == 6),
{
    ctrl_type == 0 || ctrl_type == 1 || ctrl_type == 2 || ctrl_type == 5 || ctrl_type == 6
}

// -- Task lists -------------------------------------------------------------

/// The process of one row of a task list in comma-separated form, such as
/// `"midi-pages.exe","1234","Console","1","18,044 K"`: the second field, without
/// its quotes. A row that is empty, too short or without a number has none.
pub open spec fn row_pid(line: Seq<char>) -> Option<u32> {
    let row = text::trimmed(line);
    let fields = text::pieces(row, ',');
    if row.len() == 0 || fields.len() < 2 {
        None
    } else {
        text::number(text::unquoted(text::trimmed(fields[1])))
    }
}

/// The processes of the rows, but for one of them.
pub open spec fn pids_of_rows(lines: Seq<Seq<char>>, except: u32) -> Seq<u32>
    decreases lines.len(),
{
    if lines.len() == 0 {
        seq![]
    } else {
        let before = pids_of_rows(lines.drop_last(), except);
        match row_pid(lines.last()) {
            Some(pid) if pid != except => before.push(pid),
            _ => before,
        }
    }
}

fn pid_of_row(line: &Vec<char>) -> (pid: Option<u32>)
    ensures
        pid == row_pid(line@),
{
    let row = text::trim(line);
    if row.len() == 0 {
        return None;
    }
    let fields = text::split_at_each(&row, ',');
    if fields.len() < 2 {
        return None;
    }
    let field = text::trim_quotes(&text::trim(&fields[1]));
    assert(text::char_views(fields@)[1] == fields@[1]@);
    text::parse_number(&field)
}

/// The processes that a task list names, in its order, but for one of them.
pub fn pids_except(listing: &str, except: u32) -> (pids: Vec<u32>)
    ensures
        pids@ == pids_of_rows(text::pieces(listing@, '\n'), except),
{
    let lines = text::split_at_each(&text::chars_of(listing), '\n');
    let ghost all = text::char_views(lines@);
    let mut pids: Vec<u32> = Vec::new();
    for i in 0..lines.len()
        invariant
            all == text::char_views(lines@),
            pids@ == pids_of_rows(all.take(i as int), except),
    {
        let pid = pid_of_row(&lines[i]);
        proof {
            assert(all.take(i + 1).drop_last() =~= all.take(i as int));
            assert(all.take(i + 1).last() == lines@[i as int]@);
        }
        if let Some(found) = pid {
            if found != except {
                pids.push(found);
            }
        }
    }
    assert(all.take(all.len() as int) =~= all);
    pids
}

/// The process left out is never among those found.
pub proof fn law_the_excepted_process_is_not_listed(lines: Seq<Seq<char>>, except: u32)
    ensures
        !pids_of_rows(lines, except).contains(except),
    decreases lines.len(),
{
    if lines.len() > 0 {
        law_the_excepted_process_is_not_listed(lines.drop_last(), except);
        let before = pids_of_rows(lines.drop_last(), except);
        let after = pids_of_rows(lines, except);
        if after.contains(except) {
            let i = choose|i: int| 0 <= i < after.len() && after[i] == except;
            assert(before[i] == except);
        }
    }
}

/// A text that neither begins nor ends with white space.
pub open spec fn is_tight(text: Seq<char>) -> bool {
    text.len() > 0 && !text::white_space(text[0]) && !text::white_space(text.last())
}

/// The row of a process gives its number: a first field, then the number in quotes, then
/// whatever follows, with white space round the row or not.
pub proof fn law_the_second_field_is_the_process(
    name: Seq<char>,
    pid: u32,
    rest: Seq<char>,
    space: Seq<char>,
)
    requires
        is_tight(name),
        !name.contains(','),
        is_tight(rest),
        text::all_picked(space, |c: char| text::white_space(c)),
    ensures
        row_pid(
            name + seq![','] + seq!['"'] + text::decimal(pid as nat) + seq!['"'] + seq![',']
                + rest + space,
        ) == Some(pid),
{
    let digits = text::decimal(pid as nat);
    let field = seq!['"'] + digits + seq!['"'];
    let row = name + seq![','] + (field + seq![','] + rest);
    let line = name + seq![','] + seq!['"'] + digits + seq!['"'] + seq![','] + rest + space;
    text::law_numbers_are_read(pid as nat, seq![], 0);
    text::law_decimal_is_read_back(pid as nat);
    assert(line =~= seq![] + row + space);
    assert(row[0] == name[0]);
    assert(row.last() == rest.last());
    text::law_what_is_stripped(seq![], row, space);
    assert(text::trimmed(line) == row);
    text::law_pieces_lie_between_cuts(name, ',', field + seq![','] + rest);
    text::law_pieces_lie_between_cuts(field, ',', rest);
    assert(!field.contains(',')) by {
        if field.contains(',') {
            let k = choose|k: int| 0 <= k < field.len() && field[k] == ',';
            if 1 <= k <= digits.len() {
                assert(field[k] == digits[k - 1]);
            }
        }
    }
    let fields = text::pieces(row, ',');
    assert(fields =~= seq![name] + (seq![field] + text::pieces(rest, ',')));
    assert(fields[1] == field);
    assert(field =~= seq![] + field + seq![]);
    text::law_what_is_stripped(seq![], field, seq![]);
    assert(text::trimmed(field) == field);
    text::law_what_is_stripped(seq!['"'], digits, seq!['"']);
    assert(text::unquoted(field) == digits);
}

/// A row without a comma, or without a number in its second field, gives no process.
pub proof fn law_other_rows_give_none(name: Seq<char>, word: Seq<char>, i: int)
    requires
        is_tight(name),
        !name.contains(','),
        is_tight(word),
        !word.contains(','),
        !word.contains('"'),
        0 <= i < word.len(),
        !('0' <= word[i] <= '9'),
        !(i == 0 && word[i] == '+'),
    ensures
        row_pid(name) is None,
        row_pid(seq![]) is None,
        row_pid(name + seq![','] + word) is None,
{
    let row = name + seq![','] + word;
    let none = Seq::<char>::empty();
    assert(name =~= none + name + none);
    assert(row =~= none + row + none);
    assert(word =~= none + word + none);
    assert(none =~= none + none + none);
    text::law_what_is_stripped(none, name, none);
    text::law_what_is_stripped(none, none, none);
    assert(row[0] == name[0] && row.last() == word.last());
    text::law_what_is_stripped(none, row, none);
    text::law_what_is_stripped(none, word, none);
    text::law_pieces_lie_between_cuts(name, ',', word);
    text::law_pieces_lie_between_cuts(word, ',', none);
    assert(text::pieces(row, ',') =~= seq![name, word]);
    assert(word[0] != '"' && word.last() != '"') by {
        assert(word.contains(word[0]) && word.contains(word[word.len() - 1]));
    }
    text::law_numbers_are_read(0, word, i);
}

/// The rows of two lists, one after the other, give the processes of both; a row gives its
/// process unless that is the one left out.
pub proof fn law_rows_are_read_in_turn(a: Seq<Seq<char>>, b: Seq<Seq<char>>, except: u32)
    ensures
        pids_of_rows(a + b, except) == pids_of_rows(a, except) + pids_of_rows(b, except),
        a.len() == 1 && row_pid(a[0]) is Some && row_pid(a[0]) != Some(except) ==> pids_of_rows(
            a,
            except,
        ) == seq![row_pid(a[0]).unwrap()],
        a.len() == 1 && (row_pid(a[0]) is None || row_pid(a[0]) == Some(except)) ==> pids_of_rows(
            a,
            except,
        ) == Seq::<u32>::empty(),
    decreases b.len(),
{
    if b.len() == 0 {
        assert(a + b =~= a);
        assert(pids_of_rows(a, except) + pids_of_rows(b, except) =~= pids_of_rows(a, except));
    } else {
        law_rows_are_read_in_turn(a, b.drop_last(), except);
        assert((a + b).drop_last() =~= a + b.drop_last());
        assert((a + b).last() == b.last());
        assert(pids_of_rows(a + b, except) =~= pids_of_rows(a, except) + pids_of_rows(b, except));
    }
    if a.len() == 1 {
        assert(a.drop_last() =~= Seq::<Seq<char>>::empty());
        assert(pids_of_rows(a.drop_last(), except) =~= Seq::<u32>::empty());
    }
}

/// Whatever number is given but zero is the process that is meant.
pub proof fn law_any_number_but_zero_names_a_process(raw: u32, target: Option<u32>)
    requires
        call_ensures(stop_target, (raw,), target),
    ensures
        raw > 0 ==> target == Some(raw),
        target is None <==> raw == 0,
{
}

/// One process is chosen exactly if it is the only one.
pub proof fn law_only_a_single_process_is_chosen(pids: &Vec<u32>, choice: StopChoice)
    requires
        call_ensures(choose_process, (pids,), choice),
    ensures
        choice == StopChoice::Nothing <==> pids@.len() == 0,
        choice is Process <==> pids@.len() == 1,
        choice == StopChoice::Ambiguous <==> pids@.len() > 1,
        choice matches StopChoice::Process(pid) ==> pids@ == seq![pid],
{
}

/// The five console events that end the proxy.
pub proof fn law_five_events_end_the_proxy(ctrl_type: u32, yes: bool)
    requires
        call_ensures(is_shutdown_event, (ctrl_type,), yes),
    ensures
        yes <==> seq![0u32, 1, 2, 5, 6].contains(ctrl_type),
{
    let list = seq![0u32, 1, 2, 5, 6];
    assert(list[0] == 0 && list[1] == 1 && list[2] == 2 && list[3] == 5 && list[4] == 6);
}

/// The processes that are found are those of the lines of the listing.
pub proof fn law_every_line_is_a_row(listing: &str, except: u32, pids: Vec<u32>)
    requires
        call_ensures(pids_except, (listing, except), pids),
    ensures
        !pids@.contains(except),
        pids@ == pids_of_rows(text::pieces(listing@, '\u{a}'), except),
{
    law_the_excepted_process_is_not_listed(text::pieces(listing@, '\n'), except);
}

} // verus!
