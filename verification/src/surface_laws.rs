//! What holds of every surface: where it scrolls to, what a picked path becomes, when the
//! person is told, and which agent a click means.

use crate::app::AppView;
use crate::editor::{prompt_text, token_of};
use crate::footer::{agent_at, agent_label, elapsed_text};
use crate::labels::{cell_label, cells, compact, entry_name};
use crate::path_index::{has_space, inserted, trim_end_char};
use crate::picker::is_open;
use crate::project::{has_origin, lossy_text, paths_from, title_of};
use crate::settings::{NotificationPolicy, SettingsView};
use crate::surface::{
    help_rows, last_scroll, may_notify, permission_rows, picker_response, picker_rows, printable,
    prompt_rows, queue_rows, rows_left, scrolled, PickerActionView,
};
use crate::text::{decimal, find_char, is_control, lemma_find_char, split, squeeze};
use vstd::prelude::*;

verus! {

// Scrolling.

/// Scrolling moves the view by the rows that were asked for and stops at either end of the
/// transcript. It follows the output exactly at the end, changes nothing else, and scrolling
/// back undoes it.
pub proof fn law_scrolling_stays_in_the_transcript(app: AppView, delta: int, width: int, height: int)
    requires
        0 <= height,
    ensures
        app.scroll_y <= last_scroll(app, width, height) <= usize::MAX ==> ({
            let last = last_scroll(app, width, height);
            let after = scrolled(app, delta, width, height);
            &&& after.scroll_y <= last
            &&& 0 <= app.scroll_y + delta <= last ==> after.scroll_y == app.scroll_y + delta
            &&& app.scroll_y + delta < 0 ==> after.scroll_y == 0
            &&& app.scroll_y + delta > last ==> after.scroll_y == last
            &&& after.follow_tail <==> after.scroll_y == last
            &&& after == AppView {
                scroll_y: after.scroll_y,
                follow_tail: after.follow_tail,
                ..app
            }
            &&& 0 <= app.scroll_y + delta <= last ==> scrolled(
                after,
                -delta,
                width,
                height,
            ).scroll_y == app.scroll_y
        }),
{
}

/// The parts of the screen together take no more rows than it has, wherever they fit at all,
/// and the transcript has all the rest.
pub proof fn law_the_transcript_has_the_rest_of_the_screen(app: AppView, height: int)
    ensures
        ({
            let parts = prompt_rows(app) + 2 + queue_rows(app.queue) + permission_rows(
                app.permission,
            ) + help_rows(app) + picker_rows(app.picker);
            &&& rows_left(app, height) >= 0
            &&& parts <= height ==> parts + rows_left(app, height) == height
            &&& parts > height ==> rows_left(app, height) == 0
        }),
{
}

// The picker.

/// Enter puts the selected path in place of the word before the cursor, and closes the
/// picker; the rest of the line stays. Arrows move the selection by one and stay within what
/// was found.
pub proof fn law_the_selected_path_is_inserted(app: AppView)
    requires
        is_open(app.picker),
        app.picker.selection < app.picker.matches.len() <= usize::MAX,
        token_of(app.editor) is Some,
        app.editor.cursor.0 < app.editor.lines.len(),
    ensures
        ({
            let (after, action) = picker_response(app, crate::editor::Key::Enter);
            let found = app.picker.matches[app.picker.selection as int];
            let value = inserted(found.path, found.directory);
            let (row, col) = app.editor.cursor;
            let (start, token) = token_of(app.editor)->0;
            let line = app.editor.lines[row as int];
            &&& action == PickerActionView::Insert(value)
            &&& after.editor.lines[row as int] == line.take(start) + value + line.skip(col as int)
            &&& after.editor.lines.len() == app.editor.lines.len()
            &&& after.prompt == prompt_text(after.editor)
            &&& !is_open(after.picker)
        }),
        ({
            let down = picker_response(app, crate::editor::Key::Down).0.picker.selection;
            let up = picker_response(app, crate::editor::Key::Up).0.picker.selection;
            &&& down == (if app.picker.selection + 1 < app.picker.matches.len() {
                app.picker.selection + 1
            } else {
                app.picker.selection as int
            })
            &&& up == (if app.picker.selection > 0 {
                app.picker.selection - 1
            } else {
                0
            })
        }),
        !is_open(picker_response(app, crate::editor::Key::Esc).0.picker),
        picker_response(app, crate::editor::Key::Esc).0.prompt == app.prompt,
{
}

/// A file that is inserted is written as it is called, between quotes where its path holds
/// white space, and followed by a space; a directory ends in one slash and no space.
pub proof fn law_inserted_paths_keep_their_name(path: Seq<char>)
    ensures
        !has_space(path) ==> inserted(path, false) == "@"@ + path + " "@,
        has_space(path) ==> inserted(path, false) == "@\""@ + path + "\" "@,
        path.len() > 0 && path.last() != '/' ==> inserted(path, true) == "@"@ + path + "/"@
            && inserted(path.push('/'), true) == inserted(path, true),
{
    if path.len() > 0 && path.last() != '/' {
        assert(trim_end_char(path, '/') == path);
        assert(path.push('/').drop_last() =~= path);
        assert(trim_end_char(path.push('/'), '/') == trim_end_char(path, '/'));
    }
}

// Attention.

/// The person is told outside the terminal as they chose: never, always, or while they look
/// elsewhere.
pub proof fn law_people_are_told_as_they_chose(app: AppView)
    ensures
        may_notify(
            AppView {
                settings: SettingsView {
                    notification_policy: NotificationPolicy::Always,
                    ..app.settings
                },
                ..app
            },
        ),
        !may_notify(
            AppView {
                settings: SettingsView {
                    notification_policy: NotificationPolicy::Never,
                    ..app.settings
                },
                ..app
            },
        ),
        may_notify(
            AppView {
                settings: SettingsView {
                    notification_policy: NotificationPolicy::Blur,
                    ..app.settings
                },
                ..app
            },
        ) == !app.terminal_focused,
{
}

/// Only control characters are left out of what the terminal is told.
pub proof fn law_printable_text_is_kept(first: Seq<char>, second: Seq<char>, c: char)
    ensures
        printable(first + second) == printable(first) + printable(second),
        !is_control(c) ==> printable(seq![c]) == seq![c],
        is_control(c) ==> printable(seq![c]).len() == 0,
    decreases second.len(),
{
    assert(seq![c].drop_last() =~= Seq::<char>::empty());
    assert(printable(seq![c].drop_last()) =~= Seq::<char>::empty());
    assert(!is_control(c) ==> printable(seq![c]) =~= seq![c]);
    if second.len() == 0 {
        assert(first + second =~= first);
        assert(printable(first) + printable(second) =~= printable(first));
    } else {
        assert((first + second).drop_last() =~= first + second.drop_last());
        law_printable_text_is_kept(first, second.drop_last(), c);
        assert(printable(first + second) =~= printable(first) + printable(second));
    }
}

// The information row.

/// Where the label of an agent begins on the information row.
pub open spec fn label_start(app: AppView, shown: Seq<usize>, k: int, now: u64) -> int
    decreases k,
{
    if k <= 0 {
        1
    } else {
        label_start(app, shown, k - 1, now) + cells(
            agent_label(app, shown[k - 1], shown.len() as int, now),
        ) + 3
    }
}

proof fn lemma_labels_follow(app: AppView, shown: Seq<usize>, from: int, to: int, now: u64)
    requires
        0 <= from <= to,
    ensures
        label_start(app, shown, from, now) <= label_start(app, shown, to, now),
        from < to ==> label_start(app, shown, from, now) + cells(
            agent_label(app, shown[from], shown.len() as int, now),
        ) + 3 <= label_start(app, shown, to, now),
    decreases to - from,
{
    if from < to {
        lemma_labels_follow(app, shown, from, to - 1, now);
    }
}

/// A click on the label of an agent means that agent, and a click between labels nobody.
pub proof fn law_clicks_mean_the_agent_below(
    app: AppView,
    shown: Seq<usize>,
    k: int,
    place: int,
    now: u64,
)
    requires
        0 <= k < shown.len(),
    ensures
        label_start(app, shown, k, now) <= place < label_start(app, shown, k, now) + cells(
            agent_label(app, shown[k], shown.len() as int, now),
        ) ==> agent_at(app, shown, 0, 1, place, now) == Some(shown[k]),
        label_start(app, shown, k, now) - 3 <= place < label_start(app, shown, k, now) && k > 0
            ==> agent_at(app, shown, 0, 1, place, now) is None,
{
    lemma_click(app, shown, 0, k, place, now);
}

proof fn lemma_click(app: AppView, shown: Seq<usize>, from: int, k: int, place: int, now: u64)
    requires
        0 <= from <= k < shown.len(),
    ensures
        ({
            let cursor = if from > 0 {
                label_start(app, shown, from, now) - 3
            } else {
                1
            };
            let width = cells(agent_label(app, shown[k], shown.len() as int, now));
            let start = label_start(app, shown, k, now);
            &&& start <= place < start + width ==> agent_at(app, shown, from, cursor, place, now)
                == Some(shown[k])
            &&& start - 3 <= place < start && k > 0 ==> agent_at(
                app,
                shown,
                from,
                cursor,
                place,
                now,
            ) is None
        }),
    decreases k - from,
{
    let start = label_start(app, shown, k, now);
    if from < k {
        lemma_labels_follow(app, shown, from, k, now);
        lemma_click(app, shown, from + 1, k, place, now);
    } else if start - 3 <= place < start {
        let cursor = if from > 0 {
            start - 3
        } else {
            1
        };
        let width = cells(agent_label(app, shown[k], shown.len() as int, now)) as int;
        lemma_nobody(app, shown, k + 1, start + width, place, now);
    }
}

proof fn lemma_nobody(
    app: AppView,
    shown: Seq<usize>,
    from: int,
    cursor: int,
    place: int,
    now: u64,
)
    requires
        from > 0,
        place < cursor,
    ensures
        agent_at(app, shown, from, cursor, place, now) is None,
    decreases shown.len() - from,
{
    if from < shown.len() {
        let width = cells(agent_label(app, shown[from], shown.len() as int, now)) as int;
        lemma_nobody(app, shown, from + 1, cursor + 3 + width, place, now);
    }
}

/// Elapsed time is shown as minutes, a colon and two digits of seconds.
pub proof fn law_elapsed_time_is_minutes_and_seconds(minutes: nat, seconds: nat)
    requires
        seconds < 60,
    ensures
        elapsed_text(60 * minutes + seconds) == decimal(minutes) + ":"@ + (if seconds < 10 {
            "0"@ + decimal(seconds)
        } else {
            decimal(seconds)
        }),
{
    let all: nat = 60 * minutes + seconds;
    assert(all / 60 == minutes && all % 60 == seconds);
}

// Labels.

/// A label that is cut keeps the beginning of the text, and an ellipsis stands for the rest.
pub proof fn law_cut_labels_keep_the_beginning(value: Seq<char>, width: int)
    requires
        width > 1,
        value.len() > width,
    ensures
        compact(value, width).len() == width,
        compact(value, width).last() == '…',
        compact(value, width).drop_last() == value.take(width - 1),
{
    assert(value.take(width - 1).push('…').drop_last() =~= value.take(width - 1));
}

/// A text that takes no more cells than there are is shown whole; of another its beginning
/// is shown, and an ellipsis for the rest.
pub proof fn law_cell_labels_keep_the_beginning(value: Seq<char>, width: int)
    requires
        width > 0,
    ensures
        cells(value) <= width ==> cell_label(value, width) == value,
        cells(value) > width ==> cell_label(value, width).len() > 0 && cell_label(
            value,
            width,
        ).last() == '…' && cell_label(value, width).drop_last() == value.take(
            cell_label(value, width).len() - 1,
        ) && cell_label(value, width).len() <= value.len() + 1,
{
    let room = width - cells(seq!['…']);
    let budget = if room > 0 {
        room
    } else {
        0
    };
    let k = crate::labels::fitting(value, 0, budget);
    lemma_fitting(value, 0, budget);
    assert(value.take(k).push('…').drop_last() =~= value.take(k));
}

proof fn lemma_fitting(value: Seq<char>, used: int, budget: int)
    ensures
        0 <= crate::labels::fitting(value, used, budget) <= value.len(),
    decreases value.len(),
{
    if value.len() > 0 {
        lemma_fitting(value.drop_first(), used + cells(seq![value[0]]), budget);
    }
}

/// The entry that a path leads to is the name behind its last slash.
pub proof fn law_paths_are_called_by_their_last_name(directory: Seq<char>, name: Seq<char>)
    requires
        name.len() > 0,
        !name.contains('/'),
        name != "."@,
        name != ".."@,
    ensures
        entry_name(directory.push('/') + name) == Some(name),
        entry_name(name) == Some(name),
{
    lemma_split_ends(directory, name);
    lemma_split_plain(name);
    let parts = split(directory.push('/') + name, '/');
    assert(parts.last() == name);
    assert(seq![name].last() == name);
}

proof fn lemma_split_plain(name: Seq<char>)
    requires
        !name.contains('/'),
    ensures
        split(name, '/') == seq![name],
{
    lemma_find_char(name, '/');
    let k = find_char(name, '/');
    if k < name.len() {
        assert(name[k] == '/');
    }
}

proof fn lemma_split_ends(directory: Seq<char>, name: Seq<char>)
    requires
        !name.contains('/'),
    ensures
        split(directory.push('/') + name, '/').len() > 0,
        split(directory.push('/') + name, '/').last() == name,
    decreases directory.len(),
{
    let s = directory.push('/') + name;
    lemma_find_char(s, '/');
    let k = find_char(s, '/');
    assert(s[directory.len() as int] == '/');
    let rest = s.skip(k + 1);
    if k < directory.len() {
        assert(rest =~= directory.skip(k + 1).push('/') + name);
        lemma_split_ends(directory.skip(k + 1), name);
    } else {
        assert(rest =~= name);
        lemma_split_plain(name);
    }
    let all = seq![s.take(k)] + split(rest, '/');
    assert(all.last() == split(rest, '/').last());
}

// Tasks and changes.

/// The title of a task is the beginning of what was asked, on one line and at most a hundred
/// characters long.
pub proof fn law_titles_begin_as_the_task_does(text: Seq<char>)
    ensures
        title_of(text).len() <= 100,
        squeeze(text).len() <= 100 ==> title_of(text) == squeeze(text),
        squeeze(text).len() > 100 ==> title_of(text) == squeeze(text).take(100),
{
    if squeeze(text).len() == 100 {
        assert(squeeze(text).take(100) =~= squeeze(text));
    }
}

/// Every changed path is listed, in the order of the status: behind two letters and a space,
/// and where it was renamed or copied, not the path that it came from.
pub proof fn law_every_changed_path_is_listed(all: Seq<Seq<u8>>, i: int)
    requires
        0 <= i < all.len(),
        all[i].len() >= 4,
    ensures
        paths_from(all, i).len() > 0,
        paths_from(all, i)[0] == lossy_text(all[i].skip(3)),
        !has_origin(all[i]) ==> paths_from(all, i).drop_first() == paths_from(all, i + 1),
        has_origin(all[i]) ==> paths_from(all, i).drop_first() == paths_from(all, i + 2),
{
    let rest = if has_origin(all[i]) {
        paths_from(all, i + 2)
    } else {
        paths_from(all, i + 1)
    };
    assert(paths_from(all, i).drop_first() =~= rest);
}

} // verus!
