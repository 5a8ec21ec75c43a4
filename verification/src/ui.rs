//! The state of the screen, and what keys do to it.
use crate::args::Args;
use crate::num;
use crate::num::{num, Calc, Model, Num, HALF, TEN, THOUSAND, TWO};
use crate::scrape::{Shared, SharedView};
use crate::text::same;
use vstd::prelude::*;

pub use crate::charts::RateGraph;
pub use crate::dashboard::draw;
pub use crate::show::fmt_tokens;

verus! {

/// Rows that the full layout needs; below, the compact layout takes over.
pub const FULL_MIN_ROWS: u16 = 26;

/// Columns that the full layout needs.
pub const FULL_MIN_COLS: u16 = 90;

/// The color themes.
pub const THEMES: [&'static str; 3] = ["gruvbox", "catppuccin", "tokyonight"];

/// What covers the panels.
#[derive(Clone, Copy, PartialEq, Eq, Structural, Debug)]
pub enum Overlay {
    /// The panels are bare.
    Closed,
    Help,
    Explain,
}

/// The state of the screen.
#[derive(Clone, Copy, Debug)]
pub struct Ui {
    pub theme_idx: usize,
    /// `None`: by terminal size; `Some`: forced.
    pub compact: Option<bool>,
    pub graphs_on: bool,
    pub window_focus: usize,
    /// When scraping was paused, in nanoseconds.
    pub paused_since: Option<u64>,
    /// Certificates are not checked: flagged in the header so that unverified
    /// TLS is visible.
    pub insecure: bool,
    pub overlay: Overlay,
    pub scroll: u16,
    /// Poll interval in seconds.
    pub interval: Num,
}

/// The position of a theme by name; the first one where there is none.
pub open spec fn theme_index(name: Seq<char>) -> usize {
    if name == THEMES@[1]@ && name != THEMES@[0]@ {
        1
    } else if name == THEMES@[2]@ && name != THEMES@[0]@ {
        2
    } else {
        0
    }
}

/// Whether an area is too small for the full layout.
pub open spec fn too_small(cols: u16, rows: u16) -> bool {
    rows < FULL_MIN_ROWS || cols < FULL_MIN_COLS
}

/// The layout for a terminal size; the full one where the size is not known.
pub open spec fn compact_for(size: Option<(u16, u16)>) -> bool {
    match size {
        Some((cols, rows)) => too_small(cols, rows),
        None => false,
    }
}

/// Whether the compact layout fits the terminal, given as columns and rows.
pub fn auto_compact(size: Option<(u16, u16)>) -> (r: bool)
    ensures
        r == compact_for(size),
{
    match size {
        Some((cols, rows)) => rows < FULL_MIN_ROWS || cols < FULL_MIN_COLS,
        None => false,
    }
}

impl Ui {
    pub open spec fn wf(self) -> bool {
        self.theme_idx < 3 && self.window_focus < 3
    }

    /// The screen at the start of a run.
    pub open spec fn start(args: &Args) -> Ui {
        Ui {
            theme_idx: theme_index(args.theme@),
            compact: if args.compact {
                Some(true)
            } else {
                None
            },
            graphs_on: true,
            window_focus: 2,
            paused_since: None,
            insecure: args.insecure,
            overlay: Overlay::Closed,
            scroll: 0,
            interval: args.poll(),
        }
    }

    pub fn new(args: &Args) -> (r: Ui)
        ensures
            r.wf(),
            r == Ui::start(args),
    {
        let mut theme_idx: usize = 0;
        if !same(args.theme.as_str(), THEMES[0]) {
            if same(args.theme.as_str(), THEMES[1]) {
                theme_idx = 1;
            } else if same(args.theme.as_str(), THEMES[2]) {
                theme_idx = 2;
            }
        }
        Ui {
            theme_idx,
            compact: if args.compact {
                Some(true)
            } else {
                None
            },
            graphs_on: true,
            window_focus: 2,
            paused_since: None,
            insecure: args.insecure,
            overlay: Overlay::Closed,
            scroll: 0,
            interval: args.poll_interval(),
        }
    }

    /// The name of the current theme.
    pub fn theme(&self) -> (r: &'static str)
        requires
            self.wf(),
        ensures
            r@ == THEMES@[self.theme_idx as int]@,
    {
        THEMES[self.theme_idx]
    }
}

/// A key press.
#[derive(Clone, Copy, PartialEq, Eq, Structural, Debug)]
pub enum Key {
    Char(char),
    Esc,
    Up,
    Down,
    /// Any other key.
    Other,
}

/// Whether a key ends the program.
pub open spec fn quits(key: Key) -> bool {
    key == Key::Char('q') || key == Key::Esc
}

/// The pause switch after a key.
pub open spec fn paused_after(paused: bool, key: Key) -> bool {
    if key == Key::Char(' ') {
        !paused
    } else {
        paused
    }
}

/// Whether a key changes the poll interval.
pub open spec fn sets_interval(key: Key) -> bool {
    key == Key::Char('+') || key == Key::Char('=') || key == Key::Char('-')
}

/// The poll interval after a key, in seconds.
pub open spec fn interval_after(m: Model, interval: Num, key: Key) -> Num {
    if key == Key::Char('+') || key == Key::Char('=') {
        m(Calc::Product(interval, num(TWO))).smaller(num(TEN))
    } else if key == Key::Char('-') {
        m(Calc::Quotient(interval, num(TWO))).larger(num(HALF))
    } else {
        interval
    }
}

/// The overlay after a key that toggles `o`.
pub open spec fn toggled(current: Overlay, o: Overlay) -> Overlay {
    if current == o {
        Overlay::Closed
    } else {
        o
    }
}

/// The screen after a key. `paused` is the pause switch before it, `now` the
/// time, `size` the terminal's columns and rows where they are known.
pub open spec fn ui_after(
    m: Model,
    ui: Ui,
    paused: bool,
    key: Key,
    now: u64,
    size: Option<(u16, u16)>,
) -> Ui {
    match key {
        Key::Char(' ') => Ui {
            paused_since: if paused {
                None
            } else {
                Some(now)
            },
            ..ui
        },
        Key::Char('c') => Ui {
            compact: Some(
                !(match ui.compact {
                    Some(c) => c,
                    None => compact_for(size),
                }),
            ),
            ..ui
        },
        Key::Char('g') => Ui { graphs_on: !ui.graphs_on, ..ui },
        Key::Char('t') => Ui { theme_idx: ((ui.theme_idx + 1) % 3) as usize, ..ui },
        Key::Char('1') => Ui { window_focus: 0, ..ui },
        Key::Char('2') => Ui { window_focus: 1, ..ui },
        Key::Char('3') => Ui { window_focus: 2, ..ui },
        Key::Char('e') => Ui { overlay: toggled(ui.overlay, Overlay::Explain), scroll: 0, ..ui },
        Key::Char('?') => Ui { overlay: toggled(ui.overlay, Overlay::Help), ..ui },
        Key::Char('+') | Key::Char('=') | Key::Char('-') => Ui {
            interval: interval_after(m, ui.interval, key),
            ..ui
        },
        Key::Down | Key::Char('j') => if ui.overlay == Overlay::Explain && ui.scroll < u16::MAX {
            Ui { scroll: (ui.scroll + 1) as u16, ..ui }
        } else {
            ui
        },
        Key::Up | Key::Char('k') => if ui.scroll > 0 {
            Ui { scroll: (ui.scroll - 1) as u16, ..ui }
        } else {
            ui
        },
        _ => ui,
    }
}

/// What the scraper is told after a key.
pub open spec fn shared_after(m: Model, ui: Ui, s: SharedView, key: Key) -> SharedView {
    SharedView {
        paused: paused_after(s.paused, key),
        interval_ms: if sets_interval(key) {
            m(
                Calc::Product(interval_after(m, ui.interval, key), num(THOUSAND)),
            ).whole() as u64
        } else {
            s.interval_ms
        },
        ..s
    }
}

fn set_interval<C: Fn(Calc) -> Num + Copy>(ui: &mut Ui, shared: &mut Shared, interval: Num, calc: C)
    requires
        num::total(calc),
    ensures
        *final(ui) == (Ui { interval, ..*old(ui) }),
        *final(shared) == (Shared { interval_ms: final(shared).interval_ms, ..*old(shared) }),
        forall|m: Model| #[trigger]
            num::models(calc, m) ==> final(shared).interval_ms == m(
                Calc::Product(interval, num(THOUSAND)),
            ).whole() as u64,
{
    ui.interval = interval;
    shared.interval_ms = calc(Calc::Product(interval, num(THOUSAND))).to_count();
}

/// Acts on a key press; whether the program should end.
pub fn handle_key<C: Fn(Calc) -> Num + Copy>(
    ui: &mut Ui,
    shared: &mut Shared,
    key: Key,
    now: u64,
    size: Option<(u16, u16)>,
    calc: C,
) -> (r: bool)
    requires
        num::total(calc),
        old(ui).wf(),
        old(shared).wf(),
    ensures
        r == quits(key),
        final(ui).wf(),
        final(shared).wf(),
        forall|m: Model| #[trigger]
            num::models(calc, m) ==> *final(ui) == ui_after(
                m,
                *old(ui),
                old(shared)@.paused,
                key,
                now,
                size,
            ) && final(shared)@ == shared_after(m, *old(ui), old(shared)@, key),
        final(shared)@.history == old(shared)@.history,
        final(shared)@.peaks == old(shared)@.peaks,
{
    match key {
        Key::Char('q') | Key::Esc => {
            return true;
        },
        Key::Char(' ') => {
            shared.paused = !shared.paused;
            ui.paused_since = if shared.paused {
                Some(now)
            } else {
                None
            };
        },
        Key::Char('c') => {
            let auto = match ui.compact {
                Some(c) => c,
                None => auto_compact(size),
            };
            ui.compact = Some(!auto);
        },
        Key::Char('g') => {
            ui.graphs_on = !ui.graphs_on;
        },
        Key::Char('t') => {
            ui.theme_idx = (ui.theme_idx + 1) % 3;
        },
        Key::Char('1') => {
            ui.window_focus = 0;
        },
        Key::Char('2') => {
            ui.window_focus = 1;
        },
        Key::Char('3') => {
            ui.window_focus = 2;
        },
        Key::Char('e') => {
            ui.overlay = if ui.overlay == Overlay::Explain {
                Overlay::Closed
            } else {
                Overlay::Explain
            };
            ui.scroll = 0;
        },
        Key::Char('?') => {
            ui.overlay = if ui.overlay == Overlay::Help {
                Overlay::Closed
            } else {
                Overlay::Help
            };
        },
        Key::Char('+') | Key::Char('=') => {
            let interval = calc(Calc::Product(ui.interval, num(TWO))).min(num(TEN));
            set_interval(ui, shared, interval, calc);
        },
        Key::Char('-') => {
            let interval = calc(Calc::Quotient(ui.interval, num(TWO))).max(num(HALF));
            set_interval(ui, shared, interval, calc);
        },
        Key::Down | Key::Char('j') => {
            if ui.overlay == Overlay::Explain && ui.scroll < u16::MAX {
                ui.scroll = ui.scroll + 1;
            }
        },
        Key::Up | Key::Char('k') => {
            if ui.scroll > 0 {
                ui.scroll = ui.scroll - 1;
            }
        },
        _ => {},
    }
    false
}

/// A key that ends the program changes nothing else.
pub proof fn law_quitting_changes_nothing(
    m: Model,
    ui: Ui,
    s: SharedView,
    key: Key,
    now: u64,
    size: Option<(u16, u16)>,
)
    requires
        quits(key),
    ensures
        ui_after(m, ui, s.paused, key, now, size) == ui,
        shared_after(m, ui, s, key) == s,
{
}

/// Every key leaves a theme and a window that exist.
pub proof fn law_keys_keep_the_screen_sound(
    m: Model,
    ui: Ui,
    paused: bool,
    key: Key,
    now: u64,
    size: Option<(u16, u16)>,
)
    requires
        ui.wf(),
    ensures
        ui_after(m, ui, paused, key, now, size).wf(),
{
}

/// The graph switch undoes itself.
pub proof fn law_graph_switch_undoes_itself(
    m: Model,
    ui: Ui,
    paused: bool,
    now: u64,
    size: Option<(u16, u16)>,
)
    ensures
        ({
            let key = Key::Char('g');
            ui_after(m, ui_after(m, ui, paused, key, now, size), paused, key, now, size) == ui
        }),
{
}

/// The keymap closes as it opened: over the bare panels, pressing its key twice
/// changes nothing.
pub proof fn law_keymap_switch_undoes_itself(
    m: Model,
    ui: Ui,
    paused: bool,
    now: u64,
    size: Option<(u16, u16)>,
)
    requires
        ui.overlay != Overlay::Explain,
    ensures
        ({
            let key = Key::Char('?');
            ui_after(m, ui_after(m, ui, paused, key, now, size), paused, key, now, size) == ui
        }),
{
}

/// The explain screen opens at its top, and closes to the bare panels.
pub proof fn law_explain_opens_at_the_top(
    m: Model,
    ui: Ui,
    paused: bool,
    now: u64,
    size: Option<(u16, u16)>,
)
    ensures
        ({
            let u = ui_after(m, ui, paused, Key::Char('e'), now, size);
            &&& u.scroll == 0
            &&& ui.overlay == Overlay::Explain ==> u.overlay == Overlay::Closed
            &&& ui.overlay != Overlay::Explain ==> u.overlay == Overlay::Explain
        }),
{
}

/// Pausing twice resumes.
pub proof fn law_pause_switch_undoes_itself(m: Model, ui: Ui, s: SharedView)
    ensures
        ({
            let key = Key::Char(' ');
            shared_after(m, ui, shared_after(m, ui, s, key), key) == s
        }),
{
}

/// The screen shows since when scraping is paused exactly while it is.
pub proof fn law_pause_is_shown(
    m: Model,
    ui: Ui,
    s: SharedView,
    key: Key,
    now: u64,
    size: Option<(u16, u16)>,
)
    requires
        ui.paused_since is Some <==> s.paused,
    ensures
        ui_after(m, ui, s.paused, key, now, size).paused_since is Some <==> shared_after(
            m,
            ui,
            s,
            key,
        ).paused,
{
}

/// Three themes on, the first one is back.
pub proof fn law_themes_cycle(
    m: Model,
    ui: Ui,
    paused: bool,
    now: u64,
    size: Option<(u16, u16)>,
)
    requires
        ui.wf(),
    ensures
        ({
            let key = Key::Char('t');
            let u1 = ui_after(m, ui, paused, key, now, size);
            let u2 = ui_after(m, u1, paused, key, now, size);
            ui_after(m, u2, paused, key, now, size) == ui
        }),
{
}

/// The layout key always changes the layout that is shown.
pub proof fn law_layout_switch_flips_the_layout(
    m: Model,
    ui: Ui,
    paused: bool,
    now: u64,
    size: Option<(u16, u16)>,
)
    ensures
        ({
            let shown = |u: Ui|
                match u.compact {
                    Some(c) => c,
                    None => compact_for(size),
                };
            shown(ui_after(m, ui, paused, Key::Char('c'), now, size)) == !shown(ui)
        }),
{
}

/// The poll interval stays between half a second and ten seconds, as long as
/// doubling does not lower a number and halving does not raise one.
pub proof fn law_interval_stays_in_bounds(m: Model, interval: Num, key: Key)
    requires
        num(HALF).at_most(interval),
        interval.at_most(num(TEN)),
        interval.at_most(m(Calc::Product(interval, num(TWO)))),
        m(Calc::Quotient(interval, num(TWO))).at_most(interval),
    ensures
        num(HALF).at_most(interval_after(m, interval, key)),
        interval_after(m, interval, key).at_most(num(TEN)),
{
}

/// Whole and half seconds on which doubling and halving is exact.
pub open spec fn halves(m: Model, unit: spec_fn(int) -> Num, limit: int) -> bool {
    &&& unit(1) == num(0x3fe0_0000_0000_0000)
    &&& unit(20) == num(0x4024_0000_0000_0000)
    &&& forall|a: int, b: int|
        0 <= a <= limit && 0 <= b <= limit ==> (#[trigger] unit(a).at_most(unit(b)) <==> a <= b)
    &&& forall|a: int|
        0 <= a && 2 * a <= limit ==> #[trigger] m(
            Calc::Product(unit(a), num(0x4000_0000_0000_0000)),
        ) == unit(2 * a)
    &&& forall|a: int|
        0 <= a && 2 * a <= limit ==> #[trigger] m(
            Calc::Quotient(unit(2 * a), num(0x4000_0000_0000_0000)),
        ) == unit(a)
}

/// `+` doubles the poll interval up to ten seconds, and `-` halves it down to
/// half a second: `-` undoes `+` up to five seconds.
pub proof fn law_plus_doubles_and_minus_halves(
    m: Model,
    unit: spec_fn(int) -> Num,
    limit: int,
    k: int,
)
    requires
        halves(m, unit, limit),
        limit >= 40,
        1 <= k <= 20,
    ensures
        interval_after(m, unit(k), Key::Char('+')) == unit(
            if 2 * k <= 20 {
                2 * k
            } else {
                20
            },
        ),
        interval_after(m, unit(k), Key::Char('=')) == interval_after(m, unit(k), Key::Char('+')),
        2 * k <= 20 ==> interval_after(
            m,
            interval_after(m, unit(k), Key::Char('+')),
            Key::Char('-'),
        ) == unit(k),
        m(Calc::Quotient(unit(1), num(0x4000_0000_0000_0000))).below(unit(1)) ==> interval_after(
            m,
            unit(1),
            Key::Char('-'),
        ) == unit(1),
{
    assert(m(Calc::Product(unit(k), num(0x4000_0000_0000_0000))) == unit(2 * k));
    assert(unit(2 * k).at_most(unit(20)) <==> 2 * k <= 20);
    assert(unit(20).at_most(unit(2 * k)) <==> 20 <= 2 * k);
    assert(unit(20).at_most(unit(20)));
    assert(unit(2 * k).at_most(unit(2 * k)));
    assert(m(Calc::Quotient(unit(2 * k), num(0x4000_0000_0000_0000))) == unit(k));
    assert(unit(k).at_most(unit(1)) <==> k <= 1);
    assert(unit(1).at_most(unit(k)) <==> 1 <= k);
    assert(unit(k).at_most(unit(k)));
}

/// The scraper polls at the interval that the screen shows, in milliseconds.
pub proof fn law_scraper_polls_as_shown(
    m: Model,
    ui: Ui,
    s: SharedView,
    key: Key,
    now: u64,
    size: Option<(u16, u16)>,
)
    ensures
        ({
            let u = ui_after(m, ui, s.paused, key, now, size);
            let t = shared_after(m, ui, s, key);
            &&& u.interval != ui.interval ==> t.interval_ms == m(
                Calc::Product(u.interval, num(0x408f_4000_0000_0000)),
            ).whole() as u64
            &&& key != Key::Char('+') && key != Key::Char('=') && key != Key::Char('-')
                ==> u.interval == ui.interval && t.interval_ms == s.interval_ms
        }),
{
}

/// The keys 1, 2 and 3 put the windows of 5, 15 and 60 seconds into focus, and
/// no other key does.
pub proof fn law_number_keys_pick_the_window(
    m: Model,
    ui: Ui,
    paused: bool,
    key: Key,
    now: u64,
    size: Option<(u16, u16)>,
)
    ensures
        ({
            let u = ui_after(m, ui, paused, key, now, size);
            &&& key == Key::Char('1') ==> crate::history::WINDOWS@[u.window_focus as int]
                == 5_000_000_000
            &&& key == Key::Char('2') ==> crate::history::WINDOWS@[u.window_focus as int]
                == 15_000_000_000
            &&& key == Key::Char('3') ==> crate::history::WINDOWS@[u.window_focus as int]
                == 60_000_000_000
            &&& key != Key::Char('1') && key != Key::Char('2') && key != Key::Char('3')
                ==> u.window_focus == ui.window_focus
        }),
{
}

/// Scrolling moves the tour by one line; up undoes down.
pub proof fn law_scrolling_up_undoes_scrolling_down(
    m: Model,
    ui: Ui,
    paused: bool,
    now: u64,
    size: Option<(u16, u16)>,
)
    requires
        ui.overlay == Overlay::Explain,
        ui.scroll < u16::MAX,
    ensures
        ({
            let u = ui_after(m, ui, paused, Key::Down, now, size);
            &&& u.scroll == ui.scroll + 1
            &&& ui_after(m, u, paused, Key::Up, now, size) == ui
            &&& ui_after(m, ui, paused, Key::Char('j'), now, size) == u
            &&& ui_after(m, u, paused, Key::Char('k'), now, size) == ui
        }),
{
}

/// A run starts with the theme that was asked for, where there is one of that
/// name, with the graphs on, the longest window in focus, nothing over the
/// panels, and not paused.
pub proof fn law_runs_start_as_asked(args: &Args, i: int)
    requires
        0 <= i < 3,
    ensures
        args.theme@ == THEMES@[i]@ ==> Ui::start(args).theme_idx == i,
        Ui::start(args).graphs_on,
        Ui::start(args).overlay == Overlay::Closed,
        Ui::start(args).paused_since is None,
        Ui::start(args).insecure == args.insecure,
        Ui::start(args).compact == Some(true) <==> args.compact,
        Ui::start(args).compact is None <==> !args.compact,
        crate::history::WINDOWS@[Ui::start(args).window_focus as int] == 60_000_000_000,
{
    reveal_strlit("gruvbox");
    reveal_strlit("catppuccin");
    reveal_strlit("tokyonight");
    assert(THEMES@[0]@[0] == 'g' && THEMES@[1]@[0] == 'c' && THEMES@[2]@[0] == 't');
}

} // verus!
