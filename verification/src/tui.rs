//! The text of the interface. Nothing here writes to the terminal: the
//! caller prints what these functions return.

use crate::audio::{entry_views, AudioState, Channel};
use crate::device::{ids_of, DeviceView};
use crate::events::{texts, UiMode};
use crate::level::{FULL, ZERO};
use crate::model::{channel_state, index_of, lemma_index_of, listing, AudioView};
use crate::state::{AppState, AppView};
use vstd::prelude::*;
use vstd::string::StringExecFns;
use vstd::utf8::encode_utf8;

verus! {

/// How many cells a level bar has.
pub const CELLS: usize = 10;

/// `piece` written `times` times in a row.
pub open spec fn repeated(piece: Seq<char>, times: nat) -> Seq<char>
    decreases times,
{
    if times == 0 {
        Seq::empty()
    } else {
        repeated(piece, (times - 1) as nat) + piece
    }
}

/// How many cells of the bar a level fills.
pub open spec fn filled(level: u32) -> nat {
    (level as nat * CELLS as nat) / (FULL as nat)
}

/// The bar that shows one direction of a device: dots where the direction
/// does not exist, a light shade where it is silent, else dark cells for the
/// level and medium cells for the rest.
pub open spec fn level_text(volume: Option<u32>, muted: bool) -> Seq<char> {
    match volume {
        Some(level) => if level == ZERO || muted {
            repeated("\u{2591}"@, CELLS as nat)
        } else {
            repeated("\u{2593}"@, filled(level)) + repeated(
                "\u{2592}"@,
                (CELLS - filled(level)) as nat,
            )
        },
        None => repeated("\u{b7}"@, CELLS as nat),
    }
}

/// The arrow that marks the default devices.
pub open spec fn mark(active_in: bool, active_out: bool) -> Seq<char> {
    if active_in && active_out {
        "<->"@
    } else if active_in {
        "-->"@
    } else if active_out {
        "<--"@
    } else {
        "   "@
    }
}

/// The width of a name, in bytes of its UTF-8 form.
pub open spec fn width(name: Seq<char>) -> nat {
    encode_utf8(name).len()
}

/// The width of the widest name among the rows.
pub open spec fn widest(rows: Seq<(bool, bool, bool, DeviceView)>) -> nat
    decreases rows.len(),
{
    if rows.len() == 0 {
        0
    } else if width(rows.last().3.name) > widest(rows.drop_last()) {
        width(rows.last().3.name)
    } else {
        widest(rows.drop_last())
    }
}

/// The bar of one direction of a device.
pub open spec fn channel_text(state: AudioView, id: u32, channel: Channel) -> Seq<char> {
    match channel_state(state, id, channel) {
        Some((level, muted)) => level_text(Some(level), muted),
        None => level_text(None, false),
    }
}

/// The escape sequence that clears the current line of the terminal.
pub open spec fn clear_line_text() -> Seq<char> {
    seq!['\u{1b}', '[', '2', 'K']
}

/// The line that shows one device, its name padded to `column` bytes.
pub open spec fn line(state: AudioView, row: (bool, bool, bool, DeviceView), column: nat) -> Seq<
    char,
> {
    clear_line_text() + mark(row.0, row.1) + " "@ + row.3.name + repeated(
        " "@,
        (column - width(row.3.name)) as nat,
    ) + " : "@ + channel_text(state, row.3.id, Channel::Input) + " | "@ + channel_text(
        state,
        row.3.id,
        Channel::Output,
    ) + "\r\n"@
}

/// The lines of the given rows, one after the other.
pub open spec fn lines(state: AudioView, rows: Seq<(bool, bool, bool, DeviceView)>, column: nat)
    -> Seq<char>
    decreases rows.len(),
{
    if rows.len() == 0 {
        Seq::empty()
    } else {
        lines(state, rows.drop_last(), column) + line(state, rows.last(), column)
    }
}

/// The device list as text: one line for each device, in display order, the
/// names padded to the widest.
pub open spec fn list_text(state: AudioView) -> Seq<char> {
    lines(state, listing(state), widest(listing(state)))
}

/// No row is wider than the widest.
pub proof fn lemma_widest(rows: Seq<(bool, bool, bool, DeviceView)>, p: int)
    requires
        0 <= p < rows.len(),
    ensures
        width(rows[p].3.name) <= widest(rows),
    decreases rows.len(),
{
    if p < rows.len() - 1 {
        lemma_widest(rows.drop_last(), p);
    }
}

/// Appends `piece` to `text`, `times` times.
fn pad(text: &mut String, piece: &str, times: usize)
    ensures
        final(text)@ == old(text)@ + repeated(piece@, times as nat),
{
    let mut done: usize = 0;
    assert(text@ =~= old(text)@ + repeated(piece@, 0));
    while done < times
        invariant
            0 <= done <= times,
            text@ == old(text)@ + repeated(piece@, done as nat),
        decreases times - done,
    {
        text.append(piece);
        done += 1;
        assert(text@ =~= old(text)@ + repeated(piece@, done as nat));
    }
}

/// What termion's `clear::CurrentLine` writes when it is displayed. Taken on
/// trust from termion: it writes the control sequence introducer, ESC and an
/// opening bracket, followed by `2K`.
#[verifier::external_body]
fn clear_line() -> (text: String)
    ensures
        text@ == clear_line_text(),
{
    format!("{}", termion::clear::CurrentLine)
}

/// The bar that shows one direction of a device.
pub fn draw_level(volume: Option<u32>, muted: bool) -> (text: String)
    requires
        volume matches Some(level) ==> level <= FULL,
    ensures
        text@ == level_text(volume, muted),
{
    let mut text = String::new();
    match volume {
        Some(level) => {
            if level == ZERO || muted {
                pad(&mut text, "\u{2591}", CELLS);
            } else {
                let steps: usize = ((level as u64 * CELLS as u64) / (FULL as u64)) as usize;
                assert(steps == filled(level));
                assert(steps <= CELLS) by {
                    assert(level as u64 * CELLS as u64 <= FULL as u64 * CELLS as u64);
                }
                pad(&mut text, "\u{2593}", steps);
                pad(&mut text, "\u{2592}", CELLS - steps);
            }
        },
        None => {
            pad(&mut text, "\u{b7}", CELLS);
        },
    }
    assert(text@ =~= level_text(volume, muted));
    text
}

/// The arrow that marks the default devices.
fn mark_of(active_in: bool, active_out: bool) -> (text: &'static str)
    ensures
        text@ == mark(active_in, active_out),
{
    if active_in && active_out {
        "<->"
    } else if active_in {
        "-->"
    } else if active_out {
        "<--"
    } else {
        "   "
    }
}

/// The bar of one direction of a device.
fn channel_bar(audio: &AudioState, id: u32, channel: Channel) -> (text: String)
    requires
        audio@.wf(),
    ensures
        text@ == channel_text(audio@, id, channel),
{
    let found = match channel {
        Channel::Input => audio.input(&id),
        Channel::Output => audio.output(&id),
    };
    proof {
        lemma_index_of(ids_of(audio@.devices), id);
        if let Some(k) = index_of(ids_of(audio@.devices), id) {
            assert(audio@.devices[k].wf());
        }
    }
    match found {
        Some((level, muted)) => draw_level(Some(level), muted),
        None => draw_level(None, false),
    }
}

/// The device list as text: one line for each device, in display order. A
/// line clears what the terminal showed there, then holds the arrow that
/// marks a default device, the name padded to the widest name, and the bars
/// of input and output.
pub fn draw_list(state: &AppState) -> (text: String)
    requires
        state.audio@.wf(),
    ensures
        text@ == list_text(state.audio@),
{
    let rows = state.audio.device_list();
    let ghost shown = entry_views(rows@);
    let mut column: usize = 0;
    let mut p: usize = 0;
    assert(shown.take(0) =~= Seq::empty());
    while p < rows.len()
        invariant
            0 <= p <= rows.len(),
            shown == entry_views(rows@),
            column == widest(shown.take(p as int)),
        decreases rows.len() - p,
    {
        let len = rows[p].3.name.as_str().as_bytes().len();
        assert(shown.take(p + 1).drop_last() =~= shown.take(p as int));
        assert(shown.take(p + 1).last() == shown[p as int]);
        assert(len == width(shown[p as int].3.name));
        if len > column {
            column = len;
        }
        p += 1;
    }
    assert(shown.take(p as int) =~= shown);
    let mut text = String::new();
    let mut p: usize = 0;
    assert(text@ =~= lines(state.audio@, shown.take(0), column as nat));
    while p < rows.len()
        invariant
            0 <= p <= rows.len(),
            state.audio@.wf(),
            shown == entry_views(rows@),
            column == widest(shown),
            text@ == lines(state.audio@, shown.take(p as int), column as nat),
        decreases rows.len() - p,
    {
        let active_in = rows[p].0;
        let active_out = rows[p].1;
        let device = rows[p].3;
        let ghost row = shown[p as int];
        let ghost above = text@;
        let len = device.name.as_str().as_bytes().len();
        proof {
            assert(row == (active_in, active_out, rows@[p as int].2, device@));
            lemma_widest(shown, p as int);
            assert(len == width(row.3.name));
        }
        let clear = clear_line();
        let bar_in = channel_bar(&state.audio, device.id, Channel::Input);
        let bar_out = channel_bar(&state.audio, device.id, Channel::Output);
        text.append(clear.as_str());
        text.append(mark_of(active_in, active_out));
        text.append(" ");
        text.append(device.name.as_str());
        pad(&mut text, " ", column - len);
        text.append(" : ");
        text.append(bar_in.as_str());
        text.append(" | ");
        text.append(bar_out.as_str());
        text.append("\r\n");
        proof {
            assert(text@ =~= above + line(state.audio@, row, column as nat));
            assert(shown.take(p + 1).drop_last() =~= shown.take(p as int));
            assert(shown.take(p + 1).last() == row);
        }
        p += 1;
    }
    assert(shown.take(p as int) =~= shown);
    text
}

/// The heading that names what the interface is doing.
pub open spec fn title(mode: UiMode) -> Seq<char> {
    match mode {
        UiMode::View => "Audio Devices"@,
        UiMode::EditInput => "Update Input"@,
        UiMode::EditOutput => "Update Output"@,
    }
}

/// The escape sequence that moves the cursor to the first column of the
/// second line.
pub open spec fn home_text() -> Seq<char> {
    seq!['\u{1b}', '[', '2', ';', '1', 'H']
}

/// What `{:?}` writes for a list of strings with the given characters.
pub uninterp spec fn names_debug(names: Seq<Seq<char>>) -> Seq<char>;

/// What `{:?}` writes for a list of key codes.
pub uninterp spec fn codes_debug(codes: Seq<i64>) -> Seq<char>;

/// One whole picture of the interface, put together from its parts: the
/// heading, a rule, the device list, a rule, and the keys that are held
/// down, modifiers first.
pub open spec fn composed(mode: UiMode, list: Seq<char>, modifiers: Seq<char>, keys: Seq<char>)
    -> Seq<char> {
    home_text() + clear_line_text() + title(mode) + "\r\n"@ + "-------------"@ + "\r\n"@ + list
        + "\r"@ + "-------------"@ + "\r\n"@ + clear_line_text() + "Keys: "@ + modifiers + keys
        + "\r\n"@
}

/// One whole picture of the interface.
pub open spec fn frame_text(state: AppView) -> Seq<char> {
    composed(
        state.mode,
        list_text(state.audio),
        names_debug(state.key_modifiers),
        codes_debug(state.keys),
    )
}

/// What termion's `cursor::Goto(1, 2)` writes when it is displayed. Taken on
/// trust from termion: it writes the control sequence introducer, the line,
/// a semicolon, the column, and `H`.
#[verifier::external_body]
fn cursor_home() -> (text: String)
    ensures
        text@ == home_text(),
{
    format!("{}", termion::cursor::Goto(1, 2))
}

/// The `Debug` form that std gives a list of strings. Taken on trust, and no
/// more than this: the text depends on the characters of the strings alone.
#[verifier::external_body]
fn debug_names(names: &Vec<String>) -> (text: String)
    ensures
        text@ == names_debug(texts(names@)),
{
    format!("{:?}", names)
}

/// The `Debug` form that std gives a list of integers. Taken on trust, and
/// no more than this: the text depends on the integers alone.
#[verifier::external_body]
fn debug_codes(codes: &Vec<i64>) -> (text: String)
    ensures
        text@ == codes_debug(codes@),
{
    format!("{:?}", codes)
}

/// The heading that names what the interface is doing.
fn title_of(mode: UiMode) -> (text: &'static str)
    ensures
        text@ == title(mode),
{
    match mode {
        UiMode::View => "Audio Devices",
        UiMode::EditInput => "Update Input",
        UiMode::EditOutput => "Update Output",
    }
}

/// Puts one picture of the interface together from the text of the device
/// list, of the held modifier keys and of the held keys.
pub fn compose(mode: UiMode, list: &str, modifiers: &str, keys: &str) -> (text: String)
    ensures
        text@ == composed(mode, list@, modifiers@, keys@),
{
    let mut text = cursor_home();
    text.append(clear_line().as_str());
    text.append(title_of(mode));
    text.append("\r\n");
    text.append("-------------");
    text.append("\r\n");
    text.append(list);
    text.append("\r");
    text.append("-------------");
    text.append("\r\n");
    text.append(clear_line().as_str());
    text.append("Keys: ");
    text.append(modifiers);
    text.append(keys);
    text.append("\r\n");
    assert(text@ =~= composed(mode, list@, modifiers@, keys@));
    text
}

/// One whole picture of the interface as text, for the caller to write to
/// the terminal.
pub fn draw(state: &AppState) -> (text: String)
    requires
        state.audio@.wf(),
    ensures
        text@ == frame_text(state@),
{
    let list = draw_list(state);
    let modifiers = debug_names(&state.key_modifiers);
    let keys = debug_codes(&state.keys);
    compose(state.mode, list.as_str(), modifiers.as_str(), keys.as_str())
}

} // verus!
