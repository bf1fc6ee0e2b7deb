//! The notification center's store: notifications with increasing ids,
//! added, dismissed, cleared and grouped by application, and the relative
//! time shown beside each.
use vstd::prelude::*;

use crate::order::{lemma_lex_antisym, lemma_lex_refl, lemma_lex_total, lemma_lex_trans, lex_le, lex_le_exec};
use crate::text::{chars_eq, chars_of, concat2, dec_seq, extend_chars, nat_to_string, string_of};

verus! {

/// The earliest instant the calendar holds (the start of the year -262143),
/// in nanoseconds since the Unix epoch.
pub const EARLIEST_INSTANT_NS: i128 = -8_334_601_315_200_000_000_000;

/// The latest instant the calendar holds (the last nanosecond of the year
/// 262142), in nanoseconds since the Unix epoch.
pub const LATEST_INSTANT_NS: i128 = 8_210_266_876_799_999_999_999;

/// The instant `t` (nanoseconds since the epoch) lies in the calendar.
pub open spec fn in_calendar(t: int) -> bool {
    EARLIEST_INSTANT_NS <= t <= LATEST_INSTANT_NS
}

/// Whether the instant `t` lies in the calendar.
pub fn is_in_calendar(t: i128) -> (r: bool)
    ensures
        r == in_calendar(t as int),
{
    EARLIEST_INSTANT_NS <= t && t <= LATEST_INSTANT_NS
}

/// One notification; `timestamp` is in nanoseconds since the Unix epoch.
#[derive(Debug)]
pub struct Notification {
    pub id: u64,
    pub app_name: String,
    pub summary: String,
    pub body: String,
    pub timestamp: i128,
}

impl Notification {
    /// A copy of this notification.
    pub fn duplicate(&self) -> (r: Notification)
        ensures
            r == *self,
    {
        Notification {
            id: self.id,
            app_name: self.app_name.clone(),
            summary: self.summary.clone(),
            body: self.body.clone(),
            timestamp: self.timestamp,
        }
    }
}

/// The ids of `items` increase strictly and stay below `next`.
pub open spec fn ids_ordered(items: Seq<Notification>, next: u64) -> bool {
    &&& forall|i: int, j: int| 0 <= i < j < items.len() ==> #[trigger] items[i].id < #[trigger] items[j].id
    &&& forall|i: int| 0 <= i < items.len() ==> #[trigger] items[i].id < next
    &&& next >= 1
}

/// Every timestamp of `items` lies in the calendar.
pub open spec fn times_in_calendar(items: Seq<Notification>) -> bool {
    forall|i: int| 0 <= i < items.len() ==> in_calendar(#[trigger] items[i].timestamp as int)
}

/// All notifications, in the order they arrived, and the id the next one gets.
pub struct NotificationStore {
    notifications: Vec<Notification>,
    next_id: u64,
}

/// A notification with the given fields.
pub open spec fn note(id: u64, app: Seq<char>, summary: Seq<char>, body: Seq<char>, ts: i128) -> (
    u64,
    Seq<char>,
    Seq<char>,
    Seq<char>,
    i128,
) {
    (id, app, summary, body, ts)
}

/// The fields of a notification.
pub open spec fn fields(n: Notification) -> (u64, Seq<char>, Seq<char>, Seq<char>, i128) {
    (n.id, n.app_name@, n.summary@, n.body@, n.timestamp)
}

/// Nanoseconds in a minute and in an hour.
pub open spec fn minute_ns() -> int {
    60_000_000_000
}

pub open spec fn hour_ns() -> int {
    3_600_000_000_000
}

/// The sample notifications a new store starts with, relative to `now`.
pub open spec fn sample_notifications(now: i128) -> Seq<(u64, Seq<char>, Seq<char>, Seq<char>, i128)> {
    seq![
        note(1, "System"@, "System Update Available"@, "XOS update 2026.06.2 is ready to install."@, (now - 15 * minute_ns()) as i128),
        note(2, "Firefox"@, "Download completed"@, "xos-spec-v4.pdf finished downloading."@, (now - 45 * minute_ns()) as i128),
        note(3, "File Manager"@, "Trash Emptied"@, "Successfully cleared 2.4 GB of temporary storage."@, (now - 2 * hour_ns()) as i128),
        note(4, "System"@, "Battery Low"@, "Battery is at 15%. Performance mode switched to Battery Focus."@, (now - 5 * hour_ns()) as i128),
    ]
}

/// The earliest time the clock is taken to read: five hours after the
/// earliest instant of the calendar, so that the samples timed from it, at
/// most five hours older, stay in the calendar.
pub open spec fn earliest_clock_ns() -> int {
    EARLIEST_INSTANT_NS + 5 * hour_ns()
}

/// The system clock (`SystemTime::now`) measured from the Unix epoch with
/// `duration_since(UNIX_EPOCH)`, in nanoseconds (`Duration::as_nanos`): `Ok`
/// with the time since the epoch, or `Err` with how far the clock reads
/// before it. The reading depends on the clock, so nothing is stated of it.
#[verifier::external_body]
fn read_clock() -> (r: Result<u128, u128>) {
    match std::time::SystemTime::now().duration_since(std::time::UNIX_EPOCH) {
        Ok(d) => Ok(d.as_nanos()),
        Err(e) => Err(e.duration().as_nanos()),
    }
}

/// The time, in nanoseconds since the epoch, of a clock reading: after the
/// epoch for `Ok`, before it for `Err`; a reading past the latest instant of
/// the calendar is taken as that instant, and one before `earliest_clock_ns`
/// as that time.
pub open spec fn reading_nanos(reading: Result<u128, u128>) -> int {
    match reading {
        Ok(n) => if n <= LATEST_INSTANT_NS {
            n as int
        } else {
            LATEST_INSTANT_NS as int
        },
        Err(n) => if -(n as int) >= earliest_clock_ns() {
            -(n as int)
        } else {
            earliest_clock_ns()
        },
    }
}

/// The time of a clock reading in nanoseconds since the epoch.
pub fn clock_nanos(reading: Result<u128, u128>) -> (r: i128)
    ensures
        r == reading_nanos(reading),
{
    let earliest: i128 = EARLIEST_INSTANT_NS + 18_000_000_000_000;
    match reading {
        Ok(n) => if n <= 8_210_266_876_799_999_999_999 {
            n as i128
        } else {
            LATEST_INSTANT_NS
        },
        Err(n) => if n <= 8_334_601_297_200_000_000_000 {
            -(n as i128)
        } else {
            earliest
        },
    }
}

/// The current time in nanoseconds since the epoch.
fn now_nanos() -> (r: i128)
    ensures
        earliest_clock_ns() <= r <= LATEST_INSTANT_NS,
{
    clock_nanos(read_clock())
}

impl NotificationStore {
    #[verifier::type_invariant]
    closed spec fn wf(&self) -> bool {
        ids_ordered(self.notifications@, self.next_id) && times_in_calendar(self.notifications@)
    }

    /// The notifications, oldest first.
    pub closed spec fn items(&self) -> Seq<Notification> {
        self.notifications@
    }

    /// The id that the next notification gets.
    pub closed spec fn next(&self) -> u64 {
        self.next_id
    }

    /// An empty store; the first notification gets id 1.
    pub fn empty() -> (r: Self)
        ensures
            r.items() == Seq::<Notification>::empty(),
            r.next() == 1,
            ids_ordered(r.items(), r.next()),
    {
        NotificationStore { notifications: Vec::new(), next_id: 1 }
    }

    /// A store holding the four sample notifications, timed relative to
    /// `now` (nanoseconds since the epoch).
    pub fn with_samples(now: i128) -> (r: Self)
        requires
            earliest_clock_ns() <= now <= LATEST_INSTANT_NS,
        ensures
            r.items().map_values(|n: Notification| fields(n)) == sample_notifications(now),
            r.next() == 5,
            ids_ordered(r.items(), r.next()),
    {
        let mut s = Self::empty();
        s.add(
            string_of(&chars_of("System")),
            string_of(&chars_of("System Update Available")),
            string_of(&chars_of("XOS update 2026.06.2 is ready to install.")),
            now - 900_000_000_000,
        );
        s.add(
            string_of(&chars_of("Firefox")),
            string_of(&chars_of("Download completed")),
            string_of(&chars_of("xos-spec-v4.pdf finished downloading.")),
            now - 2_700_000_000_000,
        );
        s.add(
            string_of(&chars_of("File Manager")),
            string_of(&chars_of("Trash Emptied")),
            string_of(&chars_of("Successfully cleared 2.4 GB of temporary storage.")),
            now - 7_200_000_000_000,
        );
        s.add(
            string_of(&chars_of("System")),
            string_of(&chars_of("Battery Low")),
            string_of(&chars_of("Battery is at 15%. Performance mode switched to Battery Focus.")),
            now - 18_000_000_000_000,
        );
        assert(s.items().map_values(|n: Notification| fields(n)) =~= sample_notifications(now));
        s
    }

    /// A store holding the four sample notifications, timed relative to the
    /// current time.
    pub fn new() -> (r: Self)
        ensures
            exists|now: i128|
                earliest_clock_ns() <= now <= LATEST_INSTANT_NS && r.items().map_values(|n: Notification| fields(n))
                    == sample_notifications(now),
            r.next() == 5,
            ids_ordered(r.items(), r.next()),
    {
        let now = now_nanos();
        Self::with_samples(now)
    }

    /// The id that the next notification gets (`add` needs it below
    /// `u64::MAX`).
    pub fn next_id(&self) -> (r: u64)
        ensures
            r == self.next(),
    {
        self.next_id
    }

    /// Adds a notification and returns its id.
    pub fn add(&mut self, app_name: String, summary: String, body: String, timestamp: i128) -> (id: u64)
        requires
            old(self).next() < u64::MAX,
            in_calendar(timestamp as int),
        ensures
            id == old(self).next(),
            final(self).next() == old(self).next() + 1,
            final(self).items() == old(self).items().push(
                Notification { id, app_name, summary, body, timestamp },
            ),
            ids_ordered(final(self).items(), final(self).next()),
    {
        proof {
            use_type_invariant(&*self);
        }
        let id = self.next_id;
        self.next_id = id + 1;
        let mut items: Vec<Notification> = Vec::new();
        std::mem::swap(&mut items, &mut self.notifications);
        items.push(Notification { id, app_name, summary, body, timestamp });
        self.notifications = items;
        id
    }

    /// Dismisses the notification with id `id` (nothing happens when there is
    /// none).
    pub fn remove(&mut self, id: u64)
        ensures
            final(self).items() == old(self).items().filter(|n: Notification| n.id != id),
            final(self).next() == old(self).next(),
            ids_ordered(final(self).items(), final(self).next()),
    {
        proof {
            use_type_invariant(&*self);
            reveal(Seq::filter);
        }
        let ghost old_items = self.notifications@;
        let mut kept: Vec<Notification> = Vec::new();
        let mut i: usize = 0;
        while i < self.notifications.len()
            invariant
                i <= self.notifications.len(),
                self.notifications@ == old_items,
                kept@ == old_items.take(i as int).filter(|n: Notification| n.id != id),
                forall|a: int, b: int| 0 <= a < b < kept.len() ==> #[trigger] kept@[a].id < #[trigger] kept@[b].id,
                forall|a: int| 0 <= a < kept.len() ==> #[trigger] kept@[a].id < self.next_id,
                forall|a: int| 0 <= a < kept.len() ==> exists|k: int| 0 <= k < i && (#[trigger] kept@[a]) == old_items[k],
                ids_ordered(old_items, self.next_id),
            decreases self.notifications.len() - i,
        {
            proof {
                reveal(Seq::filter);
            }
            assert(old_items.take(i + 1).drop_last() =~= old_items.take(i as int));
            assert(old_items.take(i + 1).last() == old_items[i as int]);
            if self.notifications[i].id != id {
                let ghost before = kept@;
                kept.push(self.notifications[i].duplicate());
                assert forall|a: int, b: int| 0 <= a < b < kept.len() implies #[trigger] kept@[a].id
                    < #[trigger] kept@[b].id by {
                    if b == kept.len() - 1 {
                        let k = choose|k: int| 0 <= k < i && before[a] == old_items[k];
                        assert(old_items[k].id < old_items[i as int].id);
                    }
                }
                assert forall|a: int| 0 <= a < kept.len() implies exists|k: int|
                    0 <= k < i + 1 && (#[trigger] kept@[a]) == old_items[k] by {
                    if a == kept.len() - 1 {
                        assert(kept@[a] == old_items[i as int]);
                    } else {
                        let k = choose|k: int| 0 <= k < i && before[a] == old_items[k];
                        assert(kept@[a] == old_items[k]);
                    }
                }
            } else {
                assert forall|a: int| 0 <= a < kept.len() implies exists|k: int|
                    0 <= k < i + 1 && (#[trigger] kept@[a]) == old_items[k] by {
                    let k = choose|k: int| 0 <= k < i && kept@[a] == old_items[k];
                    assert(kept@[a] == old_items[k]);
                }
            }
            i = i + 1;
        }
        assert(old_items.take(old_items.len() as int) =~= old_items);
        self.notifications = kept;
    }

    /// Dismisses every notification.
    pub fn clear_all(&mut self)
        ensures
            final(self).items() == Seq::<Notification>::empty(),
            final(self).next() == old(self).next(),
            ids_ordered(final(self).items(), final(self).next()),
    {
        proof {
            use_type_invariant(&*self);
        }
        self.notifications = Vec::new();
    }

    /// All notifications, oldest first.
    pub fn get_all(&self) -> (r: &Vec<Notification>)
        ensures
            r@ == self.items(),
            ids_ordered(self.items(), self.next()),
            times_in_calendar(self.items()),
    {
        proof {
            use_type_invariant(self);
        }
        &self.notifications
    }
}

/// The relative age shown for a notification: "just now" under a minute
/// (and for times in the future), then whole minutes, hours or days.
pub open spec fn relative_time_text(now: i128, timestamp: i128) -> Seq<char> {
    let diff = now - timestamp;
    if diff < 60_000_000_000 {
        "just now"@
    } else if diff / 1_000_000_000 < 3600 {
        dec_seq(((diff / 1_000_000_000) / 60) as nat) + "m ago"@
    } else if diff / 1_000_000_000 < 86400 {
        dec_seq(((diff / 1_000_000_000) / 3600) as nat) + "h ago"@
    } else {
        dec_seq(((diff / 1_000_000_000) / 86400) as nat) + "d ago"@
    }
}

/// The relative age of a notification from `timestamp` at time `now` (both
/// in nanoseconds since the epoch, in the calendar).
pub fn relative_time_label(now: i128, timestamp: i128) -> (r: String)
    requires
        in_calendar(now as int),
        in_calendar(timestamp as int),
    ensures
        r@ == relative_time_text(now, timestamp),
{
    let diff: i128 = now - timestamp;
    if diff < 60_000_000_000 {
        return string_of(&chars_of("just now"));
    }
    let secs: i128 = diff / 1_000_000_000;
    let (n, unit): (i128, &str) = if secs < 3600 {
        (secs / 60, "m ago")
    } else if secs < 86400 {
        (secs / 3600, "h ago")
    } else {
        (secs / 86400, "d ago")
    };
    assert(0 <= n <= secs <= 20_000_000_000_000);
    let mut v = crate::text::dec_chars(n as u64);
    let u = chars_of(unit);
    extend_chars(&mut v, &u);
    string_of(&v)
}

/// The relative age of a notification from `timestamp`, at the current time.
pub fn format_relative_time(timestamp: i128) -> (r: String)
    requires
        in_calendar(timestamp as int),
    ensures
        exists|now: i128| earliest_clock_ns() <= now <= LATEST_INSTANT_NS && r@ == relative_time_text(now, timestamp),
{
    let now = now_nanos();
    relative_time_label(now, timestamp)
}


/// The notifications of one application.
#[derive(Debug)]
pub struct NotificationGroup {
    pub app_name: String,
    pub notifications: Vec<Notification>,
}

/// `a` comes strictly before `b`.
pub open spec fn lex_lt(a: Seq<char>, b: Seq<char>) -> bool {
    lex_le(a, b) && a != b
}

/// The notifications of `items` that come from the application `app`, in
/// their order.
pub open spec fn from_app(items: Seq<Notification>, app: Seq<char>) -> Seq<Notification> {
    items.filter(|n: Notification| n.app_name@ == app)
}

/// The application names of `items`, in order.
pub open spec fn app_names(items: Seq<Notification>) -> Seq<Seq<char>> {
    items.map_values(|n: Notification| n.app_name@)
}

/// The names of `groups`, in order.
pub open spec fn group_names(groups: Seq<NotificationGroup>) -> Seq<Seq<char>> {
    groups.map_values(|g: NotificationGroup| g.app_name@)
}

/// Each name comes strictly before the next.
pub open spec fn strictly_ascending(names: Seq<Seq<char>>) -> bool {
    forall|a: int, b: int| 0 <= a < b < names.len() ==> lex_lt(#[trigger] names[a], #[trigger] names[b])
}

/// `groups` holds one group per application that has notifications in
/// `items`, ordered by application name, each with that application's
/// notifications in arrival order.
pub open spec fn grouped_by_app(items: Seq<Notification>, groups: Seq<NotificationGroup>) -> bool {
    &&& group_names(groups).to_set() == app_names(items).to_set()
    &&& strictly_ascending(group_names(groups))
    &&& forall|g: int| 0 <= g < groups.len() ==> (#[trigger] groups[g]).notifications@ == from_app(
        items,
        groups[g].app_name@,
    )
}

/// The views of a list of names.
pub open spec fn views(v: Seq<Vec<char>>) -> Seq<Seq<char>> {
    v.map_values(|n: Vec<char>| n@)
}

/// Adds `x` to the strictly ascending `names`, unless it is there already.
fn insert_name(names: &mut Vec<Vec<char>>, x: Vec<char>)
    requires
        strictly_ascending(views(old(names)@)),
    ensures
        strictly_ascending(views(final(names)@)),
        views(final(names)@).to_set() == views(old(names)@).to_set().insert(x@),
{
    let mut p: usize = 0;
    while p < names.len() && lex_le_exec(&names[p], &x) && !chars_eq(&names[p], &x)
        invariant
            p <= names.len(),
            forall|q: int| 0 <= q < p ==> lex_lt(#[trigger] names@[q]@, x@),
        decreases names.len() - p,
    {
        p = p + 1;
    }
    let ghost old_v = views(names@);
    if p < names.len() && chars_eq(&names[p], &x) {
        assert(old_v[p as int] == x@);
        assert(old_v.to_set().insert(x@) =~= old_v.to_set());
        return;
    }
    proof {
        if p < names.len() {
            lemma_lex_total(names@[p as int]@, x@);
            assert(lex_lt(x@, old_v[p as int]));
        }
    }
    let ghost xv = x@;
    names.insert(p, x);
    let ghost new_v = views(names@);
    assert(new_v =~= old_v.insert(p as int, xv));
    proof {
        assert forall|a: int, b: int| 0 <= a < b < new_v.len() implies lex_lt(
            #[trigger] new_v[a],
            #[trigger] new_v[b],
        ) by {
            if b > p && b - 1 > p {
                assert(lex_lt(old_v[p as int], old_v[b - 1]));
                lemma_lex_trans(xv, old_v[p as int], old_v[b - 1]);
                if xv == old_v[b - 1] {
                    lemma_lex_antisym(xv, old_v[p as int]);
                }
            }
            if a < p && b > p {
                assert(new_v[a] == old_v[a]);
                assert(new_v[b] == old_v[b - 1]);
                lemma_lex_trans(new_v[a], xv, new_v[b]);
                if new_v[a] == new_v[b] {
                    lemma_lex_antisym(new_v[a], xv);
                }
            } else if a > p {
                assert(new_v[a] == old_v[a - 1]);
                assert(new_v[b] == old_v[b - 1]);
            } else if a < p && b < p {
                assert(new_v[a] == old_v[a]);
                assert(new_v[b] == old_v[b]);
            }
        }
        assert forall|y: Seq<char>| new_v.to_set().contains(y) == old_v.to_set().insert(xv).contains(y) by {
            if new_v.contains(y) {
                let k = choose|k: int| 0 <= k < new_v.len() && new_v[k] == y;
                if k < p {
                    assert(old_v[k] == y);
                } else if k > p {
                    assert(old_v[k - 1] == y);
                }
            }
            if old_v.contains(y) {
                let k = choose|k: int| 0 <= k < old_v.len() && old_v[k] == y;
                if k < p {
                    assert(new_v[k] == y);
                } else {
                    assert(new_v[k + 1] == y);
                }
            }
            if y == xv {
                assert(new_v[p as int] == y);
            }
        }
        assert(new_v.to_set() =~= old_v.to_set().insert(xv));
    }
}

/// The application names of `items`, each once, in ascending order.
fn sorted_app_names(items: &Vec<Notification>) -> (names: Vec<Vec<char>>)
    ensures
        strictly_ascending(views(names@)),
        views(names@).to_set() == app_names(items@).to_set(),
{
    let mut names: Vec<Vec<char>> = Vec::new();
    let mut i: usize = 0;
    assert(views(names@).to_set() =~= app_names(items@).take(0).to_set());
    while i < items.len()
        invariant
            i <= items.len(),
            strictly_ascending(views(names@)),
            views(names@).to_set() == app_names(items@).take(i as int).to_set(),
        decreases items.len() - i,
    {
        let x = chars_of(items[i].app_name.as_str());
        insert_name(&mut names, x);
        proof {
            let t = app_names(items@).take(i + 1);
            assert(t.drop_last() =~= app_names(items@).take(i as int));
            assert(t.last() == items@[i as int].app_name@);
            assert(t.drop_last().to_set().insert(t.last()) =~= t.to_set());
        }
        i = i + 1;
    }
    assert(app_names(items@).take(items.len() as int) =~= app_names(items@));
    names
}

/// The notifications of `items` from the application `app`.
fn select_app(items: &Vec<Notification>, app: &Vec<char>) -> (r: Vec<Notification>)
    ensures
        r@ == from_app(items@, app@),
{
    let mut out: Vec<Notification> = Vec::new();
    let mut i: usize = 0;
    while i < items.len()
        invariant
            i <= items.len(),
            out@ == items@.take(i as int).filter(|n: Notification| n.app_name@ == app@),
        decreases items.len() - i,
    {
        proof {
            reveal(Seq::filter);
        }
        assert(items@.take(i + 1).drop_last() =~= items@.take(i as int));
        assert(items@.take(i + 1).last() == items@[i as int]);
        let name = chars_of(items[i].app_name.as_str());
        if chars_eq(&name, app) {
            out.push(items[i].duplicate());
        }
        i = i + 1;
    }
    assert(items@.take(items.len() as int) =~= items@);
    out
}

impl NotificationStore {
    /// The notifications grouped by application, groups ordered by
    /// application name.
    pub fn get_grouped(&self) -> (r: Vec<NotificationGroup>)
        ensures
            grouped_by_app(self.items(), r@),
    {
        let names = sorted_app_names(&self.notifications);
        let mut groups: Vec<NotificationGroup> = Vec::new();
        let mut g: usize = 0;
        while g < names.len()
            invariant
                g <= names.len(),
                groups.len() == g,
                forall|a: int| 0 <= a < g ==> (#[trigger] groups@[a]).app_name@ == names@[a]@,
                forall|a: int| 0 <= a < g ==> (#[trigger] groups@[a]).notifications@ == from_app(
                    self.notifications@,
                    groups@[a].app_name@,
                ),
            decreases names.len() - g,
        {
            let sel = select_app(&self.notifications, &names[g]);
            groups.push(NotificationGroup { app_name: string_of(&names[g]), notifications: sel });
            g = g + 1;
        }
        assert(group_names(groups@) =~= views(names@));
        groups
    }
}


proof fn lemma_filter_keeps_all(s: Seq<Notification>, id: u64)
    requires
        forall|i: int| 0 <= i < s.len() ==> (#[trigger] s[i]).id != id,
    ensures
        s.filter(|n: Notification| n.id != id) == s,
    decreases s.len(),
{
    reveal(Seq::filter);
    if s.len() > 0 {
        assert forall|i: int| 0 <= i < s.drop_last().len() implies (#[trigger] s.drop_last()[i]).id != id by {
            assert(s.drop_last()[i] == s[i]);
        }
        lemma_filter_keeps_all(s.drop_last(), id);
        assert(s.drop_last().push(s.last()) =~= s);
    }
}

/// Dismissing the notification that was just added gives back the
/// notifications there were before it.
pub proof fn law_dismiss_undoes_add(items: Seq<Notification>, next: u64, added: Notification)
    requires
        ids_ordered(items, next),
        added.id == next,
    ensures
        items.push(added).filter(|n: Notification| n.id != next) == items,
{
    reveal(Seq::filter);
    assert(items.push(added).drop_last() =~= items);
    lemma_filter_keeps_all(items, next);
}

/// Dismissing a notification twice is the same as dismissing it once.
pub proof fn law_dismiss_idempotent(items: Seq<Notification>, id: u64)
    ensures
        items.filter(|n: Notification| n.id != id).filter(|n: Notification| n.id != id) == items.filter(
            |n: Notification| n.id != id,
        ),
{
    let f = items.filter(|n: Notification| n.id != id);
    assert forall|i: int| 0 <= i < f.len() implies (#[trigger] f[i]).id != id by {
        items.lemma_filter_pred(|n: Notification| n.id != id, i);
    }
    lemma_filter_keeps_all(f, id);
}

/// Every notification belongs to exactly one group: the one of its
/// application.
pub proof fn law_groups_partition(items: Seq<Notification>, groups: Seq<NotificationGroup>, k: int)
    requires
        grouped_by_app(items, groups),
        0 <= k < items.len(),
    ensures
        exists|g: int| 0 <= g < groups.len() && #[trigger] groups[g].app_name@ == items[k].app_name@,
        forall|g: int, h: int|
            0 <= g < groups.len() && 0 <= h < groups.len() && groups[g].app_name@ == items[k].app_name@
                && groups[h].app_name@ == items[k].app_name@ ==> g == h,
{
    assert(app_names(items)[k] == items[k].app_name@);
    assert(app_names(items).to_set().contains(items[k].app_name@));
    assert(group_names(groups).to_set().contains(items[k].app_name@));
    let g = choose|g: int| 0 <= g < group_names(groups).len() && group_names(groups)[g] == items[k].app_name@;
    assert(groups[g].app_name@ == items[k].app_name@);
    assert forall|g: int, h: int|
        0 <= g < groups.len() && 0 <= h < groups.len() && groups[g].app_name@ == items[k].app_name@
            && groups[h].app_name@ == items[k].app_name@ implies g == h by {
        if g < h {
            assert(lex_lt(group_names(groups)[g], group_names(groups)[h]));
        } else if h < g {
            assert(lex_lt(group_names(groups)[h], group_names(groups)[g]));
        }
    }
}

} // verus!
