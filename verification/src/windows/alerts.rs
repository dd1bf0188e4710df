//! Timed messages that are drawn above the content.

use crate::clock::{duration_nanos, elapsed_since, nanos_of, now, seconds};
use crate::geometry::{split, Constraint, Direction, Rect};
use crate::surface::{
    bounds, clear, cleared, draw_notice, draw_text, headline, notice_drawn, plain, printable,
    same_extent, sound, surface_bounds, text_drawn, titled,
};
use ratatui::buffer::Buffer;
use std::time::{Duration, Instant};
use vstd::prelude::*;
use vstd::std_specs::convert::IntoSpec;

verus! {

/// The number of nanoseconds in one second.
pub const NANOS_PER_SECOND: u128 = 1_000_000_000;

/// The character of a decimal digit.
pub open spec fn digit(value: nat) -> char {
    if value == 0 {
        '0'
    } else if value == 1 {
        '1'
    } else if value == 2 {
        '2'
    } else if value == 3 {
        '3'
    } else if value == 4 {
        '4'
    } else if value == 5 {
        '5'
    } else if value == 6 {
        '6'
    } else if value == 7 {
        '7'
    } else if value == 8 {
        '8'
    } else {
        '9'
    }
}

/// The number in decimal digits, without leading zeros.
pub open spec fn decimal(value: nat) -> Seq<char>
    decreases value,
{
    if value < 10 {
        seq![digit(value)]
    } else {
        decimal(value / 10).push(digit(value % 10))
    }
}

/// The text of the countdown that an alert shows: the whole seconds that are
/// left, a slash, and the whole seconds of the alert's full time, both in
/// decimal.
pub open spec fn countdown_text(remaining_secs: nat, total_secs: nat) -> Seq<char> {
    decimal(remaining_secs) + seq!['/'] + decimal(total_secs)
}

/// A number in decimal is printable.
pub proof fn lemma_decimal_is_printable(value: nat)
    ensures
        printable(decimal(value)),
    decreases value,
{
    if value >= 10 {
        lemma_decimal_is_printable(value / 10);
        let front = decimal(value / 10);
        assert forall|i: int| 0 <= i < decimal(value).len() implies plain(
            #[trigger] decimal(value)[i],
        ) by {
            if i < front.len() {
                assert(decimal(value)[i] == front[i]);
            }
        }
    }
}

/// The text of a countdown is printable.
pub proof fn lemma_countdown_is_printable(remaining_secs: nat, total_secs: nat)
    ensures
        printable(countdown_text(remaining_secs, total_secs)),
{
    lemma_decimal_is_printable(remaining_secs);
    lemma_decimal_is_printable(total_secs);
    let left = decimal(remaining_secs);
    let text = countdown_text(remaining_secs, total_secs);
    assert forall|i: int| 0 <= i < text.len() implies plain(#[trigger] text[i]) by {
        if i < left.len() {
            assert(text[i] == left[i]);
        } else if i > left.len() {
            assert(text[i] == decimal(total_secs)[i - left.len() - 1]);
        }
    }
}

/// Formats the two numbers in decimal with `format!`, the first, a slash,
/// the second.
#[verifier::external_body]
fn countdown_label(remaining_secs: u128, total_secs: u128) -> (label: String)
    ensures
        label@ == countdown_text(remaining_secs as nat, total_secs as nat),
{
    format!("{}/{}", remaining_secs, total_secs)
}

/// Whether an alert is still shown: always before its first drawing, and
/// after that for as long as less than its full time has passed.
pub open spec fn shown(elapsed_nanos: Option<nat>, total_nanos: nat) -> bool {
    match elapsed_nanos {
        Some(elapsed) => elapsed < total_nanos,
        None => true,
    }
}

/// The whole seconds that are left of `total_nanos` once `elapsed_nanos` have
/// passed; none are left once the time is over.
pub open spec fn seconds_left(elapsed_nanos: nat, total_nanos: nat) -> nat {
    if elapsed_nanos >= total_nanos {
        0
    } else {
        ((total_nanos - elapsed_nanos) / NANOS_PER_SECOND as int) as nat
    }
}

/// The rectangle of the popup in the middle of an area: a quarter of the
/// width in from the area's left edge, a third of the height down from its
/// top edge, half as wide and a third as high. An edge that would lie beyond
/// the grid is held to the grid's last column or row.
pub open spec fn popup_of(area: Rect) -> Rect {
    Rect {
        x: if area.x + area.width / 4 > u16::MAX {
            u16::MAX
        } else {
            (area.x + area.width / 4) as u16
        },
        y: if area.y + area.height / 3 > u16::MAX {
            u16::MAX
        } else {
            (area.y + area.height / 3) as u16
        },
        width: (area.width / 2) as u16,
        height: (area.height / 3) as u16,
    }
}

/// The rectangle of the popup in the middle of an area.
pub fn popup_area(area: Rect) -> (popup: Rect)
    ensures
        popup == popup_of(area),
{
    Rect {
        x: area.x.saturating_add(area.width / 4),
        y: area.y.saturating_add(area.height / 3),
        width: area.width / 2,
        height: area.height / 3,
    }
}

/// Whether an alert is still shown when `elapsed_nanos` have passed since its
/// first drawing, or when it has never been drawn.
pub fn is_shown(elapsed_nanos: Option<u128>, total_nanos: u128) -> (visible: bool)
    ensures
        visible == shown(
            match elapsed_nanos {
                Some(e) => Some(e as nat),
                None => None,
            },
            total_nanos as nat,
        ),
{
    match elapsed_nanos {
        Some(elapsed) => elapsed < total_nanos,
        None => true,
    }
}

/// The whole seconds that are left of `total_nanos` once `elapsed_nanos` have
/// passed.
pub fn remaining_seconds(elapsed_nanos: u128, total_nanos: u128) -> (secs: u128)
    ensures
        secs == seconds_left(elapsed_nanos as nat, total_nanos as nat),
{
    if elapsed_nanos >= total_nanos {
        0
    } else {
        (total_nanos - elapsed_nanos) / NANOS_PER_SECOND
    }
}

/// The constraints of an alert's popup: the notice takes what the countdown
/// leaves, and the countdown two rows.
pub open spec fn popup_constraints() -> Seq<Constraint> {
    seq![Constraint::Fill(1), Constraint::Length(2)]
}

/// Whether `after` is the surface `before` with an alert drawn on it whose
/// popup was split into `layout` and whose clock stood at `elapsed_nanos`:
/// the popup is cleared, the notice is drawn on the upper part under the
/// title as a title shows it, and the countdown, the whole seconds left and
/// the whole seconds of the full time, on the lower part, each as far as the
/// surface reaches.
pub open spec fn alert_drawn_with(
    title: Seq<char>,
    message: Seq<char>,
    total_nanos: nat,
    area: Rect,
    layout: Seq<Rect>,
    elapsed_nanos: nat,
    before: Buffer,
    after: Buffer,
) -> bool {
    let popup = popup_of(area);
    let emptied = cleared(before, popup.clipped(surface_bounds(before)));
    let noticed = notice_drawn(
        emptied,
        layout[0].clipped(surface_bounds(emptied)),
        headline(title),
        message,
    );
    &&& crate::geometry::split_of(Direction::Vertical, popup_constraints(), popup, layout)
    &&& after == text_drawn(
        noticed,
        layout[1].clipped(surface_bounds(noticed)),
        countdown_text(
            seconds_left(elapsed_nanos, total_nanos),
            total_nanos / NANOS_PER_SECOND as nat,
        ),
    )
}

/// Whether `after` is the surface `before` with the alert drawn on it as a
/// popup in the middle of `area`, however the popup was split and whatever
/// the clock said.
pub open spec fn alert_shown(
    title: Seq<char>,
    message: Seq<char>,
    total_nanos: nat,
    area: Rect,
    before: Buffer,
    after: Buffer,
) -> bool {
    exists|layout: Seq<Rect>, elapsed_nanos: nat| #[trigger]
        alert_drawn_with(title, message, total_nanos, area, layout, elapsed_nanos, before, after)
}

/// What is read of an alert to tell whether it is shown: the time since its
/// first drawing, if it was drawn, and its full time, both in nanoseconds.
#[derive(Debug, Clone, Copy, PartialEq, Eq, Structural)]
pub struct Reading {
    pub elapsed: Option<u128>,
    pub total: u128,
}

/// Whether the reading is that of an alert that is still shown.
pub open spec fn reading_shown(reading: Reading) -> bool {
    match reading.elapsed {
        Some(elapsed) => elapsed < reading.total,
        None => true,
    }
}

/// Whether `index` is the first of the readings that is of an alert still
/// shown.
pub open spec fn first_shown_at(readings: Seq<Reading>, index: int) -> bool {
    &&& 0 <= index < readings.len()
    &&& reading_shown(readings[index])
    &&& forall|j: int| 0 <= j < index ==> !reading_shown(#[trigger] readings[j])
}

/// Whether none of the readings is of an alert still shown.
pub open spec fn none_shown(readings: Seq<Reading>) -> bool {
    forall|j: int| 0 <= j < readings.len() ==> !reading_shown(#[trigger] readings[j])
}

/// The position of the first reading that is of an alert still shown, if
/// there is one.
pub fn first_shown(readings: &Vec<Reading>) -> (index: Option<usize>)
    ensures
        match index {
            Some(i) => first_shown_at(readings@, i as int),
            None => none_shown(readings@),
        },
{
    let mut i: usize = 0;
    while i < readings.len()
        invariant
            i <= readings.len(),
            forall|j: int| 0 <= j < i ==> !reading_shown(#[trigger] readings@[j]),
        decreases readings.len() - i,
    {
        if is_shown(readings[i].elapsed, readings[i].total) {
            return Some(i);
        }
        i += 1;
    }
    None
}

/// Whether the readings are those of the alerts, one each and in order: a
/// time since the first drawing for exactly the alerts that were drawn, and
/// the alert's full time.
pub open spec fn read_of(alerts: Seq<Alert>, readings: Seq<Reading>) -> bool {
    &&& readings.len() == alerts.len()
    &&& forall|k: int|
        0 <= k < alerts.len() ==> (#[trigger] readings[k]).total == duration_nanos(
            alerts[k].duration(),
        ) && (readings[k].elapsed is None <==> alerts[k].first_rendered() is None)
}

/// A message with a title that stays on screen for a given time, counted from
/// the first time it is drawn.
#[derive(Debug)]
pub struct Alert {
    title: String,
    message: String,
    duration: Duration,
    rendered_time: Option<Instant>,
}

impl Alert {
    pub closed spec fn title(self) -> Seq<char> {
        self.title@
    }

    pub closed spec fn message(self) -> Seq<char> {
        self.message@
    }

    /// The time that the alert stays on screen.
    pub closed spec fn duration(self) -> Duration {
        self.duration
    }

    /// The moment of the first drawing, once there was one.
    pub closed spec fn first_rendered(self) -> Option<Instant> {
        self.rendered_time
    }

    /// The same alert before and after, but for the moment of the first
    /// drawing.
    pub open spec fn same_content(self, other: Alert) -> bool {
        &&& self.title() == other.title()
        &&& self.message() == other.message()
        &&& self.duration() == other.duration()
    }

    pub fn new<T1: Into<String>, T2: Into<String>>(title: T1, message: T2, duration: Duration) -> (alert:
        Self)
        ensures
            T1::obeys_into_spec() ==> alert.title() == title.into_spec()@,
            T2::obeys_into_spec() ==> alert.message() == message.into_spec()@,
            alert.duration() == duration,
            alert.first_rendered() is None,
    {
        Self { title: title.into(), message: message.into(), duration, rendered_time: None }
    }

    /// An alert with the title and the message as given, that was never
    /// drawn.
    pub fn with_text(title: String, message: String, duration: Duration) -> (alert: Self)
        ensures
            alert.title() == title@,
            alert.message() == message@,
            alert.duration() == duration,
            alert.first_rendered() is None,
    {
        Self { title, message, duration, rendered_time: None }
    }

    /// What the clock says of the alert now.
    pub fn read(&self) -> (reading: Reading)
        ensures
            reading.total == duration_nanos(self.duration()),
            reading.elapsed is None <==> self.first_rendered() is None,
    {
        let elapsed: Option<u128> = match &self.rendered_time {
            Some(moment) => Some(nanos_of(&elapsed_since(moment))),
            None => None,
        };
        Reading { elapsed, total: nanos_of(&self.duration) }
    }

    /// Draws the alert as a popup in the middle of `area`, and records the
    /// moment if this is the first drawing. The title is drawn as a title
    /// shows it: no longer than a row can be, and with a question mark for
    /// every character that is not a printable one of ASCII.
    pub fn render(&mut self, area: Rect, buf: &mut Buffer)
        requires
            sound(*old(buf)),
        ensures
            sound(*final(buf)),
            same_extent(*old(buf), *final(buf)),
            final(self).same_content(*old(self)),
            final(self).first_rendered() is Some,
            old(self).first_rendered() is Some ==> final(self).first_rendered() == old(self).first_rendered(),
            alert_shown(
                old(self).title(),
                old(self).message(),
                duration_nanos(old(self).duration()),
                area,
                *old(buf),
                *final(buf),
            ),
    {
        let elapsed: u128 = match &self.rendered_time {
            Some(moment) => nanos_of(&elapsed_since(moment)),
            None => {
                let moment = now();
                let passed = nanos_of(&elapsed_since(&moment));
                self.rendered_time = Some(moment);
                passed
            },
        };
        let total: u128 = nanos_of(&self.duration);

        let popup = popup_area(area);
        clear(buf, popup.clip(bounds(buf)));

        let mut constraints: Vec<Constraint> = Vec::new();
        constraints.push(Constraint::Fill(1));
        constraints.push(Constraint::Length(2));
        assert(constraints@ =~= popup_constraints());
        let layout = split(Direction::Vertical, &constraints, popup);

        let title = titled(self.title.as_str());
        draw_notice(buf, layout[0].clip(bounds(buf)), title.as_str(), self.message.as_str());
        let remaining = remaining_seconds(elapsed, total);
        let label = countdown_label(remaining, total / NANOS_PER_SECOND);
        proof {
            lemma_countdown_is_printable(remaining as nat, (total / NANOS_PER_SECOND) as nat);
        }
        draw_text(buf, layout[1].clip(bounds(buf)), label.as_str());
        assert(alert_drawn_with(
            old(self).title(),
            old(self).message(),
            total as nat,
            area,
            layout@,
            elapsed as nat,
            *old(buf),
            *buf,
        ));
    }

    /// Whether the alert is still to be shown: always before its first
    /// drawing, and after that until its time has passed.
    pub fn is_visible(&self) -> (visible: bool)
        ensures
            self.first_rendered() is None ==> visible,
            duration_nanos(self.duration()) == 0 && self.first_rendered() is Some ==> !visible,
            exists|reading: Reading| #[trigger]
                reading_shown(reading) == visible && reading.total == duration_nanos(
                    self.duration(),
                ) && (reading.elapsed is None <==> self.first_rendered() is None),
    {
        let reading = self.read();
        let visible = is_shown(reading.elapsed, reading.total);
        assert(reading_shown(reading) == visible);
        visible
    }
}

/// The alerts that were scheduled, oldest first. None is ever taken out.
#[derive(Debug)]
pub struct AlertManager {
    alerts: Vec<Alert>,
}

impl View for AlertManager {
    type V = Seq<Alert>;

    closed spec fn view(&self) -> Seq<Alert> {
        self.alerts@
    }
}

impl Default for AlertManager {
    fn default() -> (manager: Self)
        ensures
            manager@ == Seq::<Alert>::empty(),
    {
        AlertManager { alerts: Vec::new() }
    }
}

impl AlertManager {
    /// The oldest alert that is still to be shown: the clock is read once for
    /// every alert, and the first alert whose reading says that it is shown
    /// is handed out. Every alert before it has been drawn at least once, for
    /// one that was never drawn is shown.
    pub fn first_visible(&mut self) -> (found: Option<&mut Alert>)
        ensures
            match found {
                Some(alert) => exists|i: int|
                    0 <= i < old(self)@.len() && *alert == (#[trigger] old(self)@[i]) && final(self)@ == old(self)@.update(i, *final(alert)) && forall|j: int|
                        0 <= j < i ==> (#[trigger] old(self)@[j]).first_rendered() is Some,
                None => final(self)@ == old(self)@ && forall|j: int|
                    0 <= j < old(self)@.len() ==> (#[trigger] old(self)@[j]).first_rendered()
                        is Some,
            },
            match found {
                Some(alert) => exists|i: int, readings: Seq<Reading>| #[trigger]
                    first_shown_at(readings, i) && read_of(old(self)@, readings) && *alert == old(self)@[i] && final(self)@ == old(self)@.update(i, *final(alert)),
                None => exists|readings: Seq<Reading>| #[trigger]
                    none_shown(readings) && read_of(old(self)@, readings),
            },
    {
        let mut readings: Vec<Reading> = Vec::new();
        let mut k: usize = 0;
        while k < self.alerts.len()
            invariant
                k <= self.alerts.len(),
                self@ == old(self)@,
                readings@.len() == k,
                forall|j: int|
                    0 <= j < k ==> (#[trigger] readings@[j]).total == duration_nanos(
                        self@[j].duration(),
                    ) && (readings@[j].elapsed is None <==> self@[j].first_rendered() is None),
            decreases self.alerts.len() - k,
        {
            readings.push(self.alerts[k].read());
            k += 1;
        }
        assert(read_of(old(self)@, readings@));
        match first_shown(&readings) {
            Some(i) => {
                assert forall|j: int| 0 <= j < i implies (#[trigger] old(self)@[j]).first_rendered()
                    is Some by {
                    assert(!reading_shown(readings@[j]));
                }
                Some(&mut self.alerts[i])
            },
            None => {
                assert forall|j: int| 0 <= j < old(self)@.len() implies (
                #[trigger] old(self)@[j]).first_rendered() is Some by {
                    assert(!reading_shown(readings@[j]));
                }
                None
            },
        }
    }

    /// The number of alerts that were scheduled.
    pub fn len(&self) -> (len: usize)
        ensures
            len == self@.len(),
    {
        self.alerts.len()
    }

    pub fn schedule(&mut self, alert: Alert)
        ensures
            final(self)@ == old(self)@.push(alert),
    {
        self.alerts.push(alert)
    }

    /// Schedules an alert with the title "Alert" and the message, for one
    /// second.
    pub fn alert<T: Into<String>>(&mut self, msg: T)
        ensures
            final(self)@.len() == old(self)@.len() + 1,
            final(self)@.drop_last() == old(self)@,
            final(self)@.last().title() == "Alert"@,
            T::obeys_into_spec() ==> final(self)@.last().message() == msg.into_spec()@,
            duration_nanos(final(self)@.last().duration()) == NANOS_PER_SECOND,
            final(self)@.last().first_rendered() is None,
    {
        let alert = Alert {
            title: "Alert".to_string(),
            message: msg.into(),
            duration: seconds(1),
            rendered_time: None,
        };
        self.alerts.push(alert);
        assert(self@.drop_last() =~= old(self)@);
    }

    /// Schedules an alert with the title "Alert" and the message as given,
    /// for one second.
    pub fn alert_text(&mut self, msg: String)
        ensures
            final(self)@.len() == old(self)@.len() + 1,
            final(self)@.drop_last() == old(self)@,
            final(self)@.last().title() == "Alert"@,
            final(self)@.last().message() == msg@,
            duration_nanos(final(self)@.last().duration()) == NANOS_PER_SECOND,
            final(self)@.last().first_rendered() is None,
    {
        let alert = Alert::with_text("Alert".to_string(), msg, seconds(1));
        self.alerts.push(alert);
        assert(self@.drop_last() =~= old(self)@);
    }
}

} // verus!
