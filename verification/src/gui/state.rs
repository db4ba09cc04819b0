//! The state of the window, and what changes it.

use crate::gui::message::{
    empty_attached, empty_settings, Attached, AttachedView, DView, Match, MatchText, Settings,
    SettingsView, Stats, Tray, TrayState, TrayTheme, D,
};
use crate::gui::procs::counted;
use crate::kinds::Direction;
use crate::text::{same_text, texts_of};
use vstd::prelude::*;

verus! {

/// How many programs are offered at most.
pub const OFFERED: usize = 10;

/// The kinds of matches that the window offers.
#[derive(Clone, Copy, Debug, PartialEq, Eq, Structural)]
pub enum Pick {
    Basename,
    Substring,
    Prefix,
    Ipv4,
    Subnet,
    Dns,
}

/// The kind that a text names among those offered, and the usual one where it
/// names none.
pub open spec fn pick_of(s: Seq<char>) -> Pick {
    if s == "basename"@ {
        Pick::Basename
    } else if s == "substring"@ {
        Pick::Substring
    } else if s == "prefix"@ {
        Pick::Prefix
    } else if s == "ipv4"@ {
        Pick::Ipv4
    } else if s == "ipv4/subnet"@ {
        Pick::Subnet
    } else if s == "dns"@ {
        Pick::Dns
    } else {
        Pick::Substring
    }
}

impl Pick {
    /// The name of a kind.
    pub open spec fn spelling(self) -> Seq<char> {
        match self {
            Pick::Basename => "basename"@,
            Pick::Substring => "substring"@,
            Pick::Prefix => "prefix"@,
            Pick::Ipv4 => "ipv4"@,
            Pick::Subnet => "ipv4/subnet"@,
            Pick::Dns => "dns"@,
        }
    }

    /// The name of a kind.
    pub fn name(self) -> (r: &'static str)
        ensures
            r@ == self.spelling(),
    {
        match self {
            Pick::Basename => "basename",
            Pick::Substring => "substring",
            Pick::Prefix => "prefix",
            Pick::Ipv4 => "ipv4",
            Pick::Subnet => "ipv4/subnet",
            Pick::Dns => "dns",
        }
    }

    /// All kinds, in the order in which they are offered.
    pub fn all() -> (r: [Pick; 6])
        ensures
            r@ == seq![
                Pick::Basename,
                Pick::Substring,
                Pick::Prefix,
                Pick::Ipv4,
                Pick::Subnet,
                Pick::Dns,
            ],
    {
        [Pick::Basename, Pick::Substring, Pick::Prefix, Pick::Ipv4, Pick::Subnet, Pick::Dns]
    }

    /// The kind that a text names, and the usual one where it names none.
    pub fn kind_or_unk(s: &str) -> (r: Pick)
        ensures
            r == pick_of(s@),
    {
        if same_text(s, "basename") {
            Pick::Basename
        } else if same_text(s, "substring") {
            Pick::Substring
        } else if same_text(s, "prefix") {
            Pick::Prefix
        } else if same_text(s, "ipv4") {
            Pick::Ipv4
        } else if same_text(s, "ipv4/subnet") {
            Pick::Subnet
        } else if same_text(s, "dns") {
            Pick::Dns
        } else {
            Pick::Substring
        }
    }
}

/// A kind reads back from its name.
pub proof fn pick_reads_back(p: Pick)
    ensures
        pick_of(p.spelling()) == p,
{
    reveal_strlit("basename");
    reveal_strlit("substring");
    reveal_strlit("prefix");
    reveal_strlit("ipv4");
    reveal_strlit("ipv4/subnet");
    reveal_strlit("dns");
    assert("basename"@.len() == 8);
    assert("substring"@.len() == 9);
    assert("prefix"@.len() == 6);
    assert("ipv4"@.len() == 4);
    assert("ipv4/subnet"@.len() == 11);
    assert("dns"@.len() == 3);
}

/// An error of the connection: its text, and whether it says that there is no
/// such service.
#[derive(Debug)]
pub struct DbusError {
    pub text: String,
    pub service_unknown: bool,
}

/// What an error says.
pub struct ErrorView {
    pub text: Seq<char>,
    pub service_unknown: bool,
}

impl View for DbusError {
    type V = ErrorView;

    open spec fn view(&self) -> ErrorView {
        ErrorView { text: self.text@, service_unknown: self.service_unknown }
    }
}

impl Clone for DbusError {
    fn clone(&self) -> (r: Self)
        ensures
            r@ == self@,
    {
        DbusError { text: self.text.clone(), service_unknown: self.service_unknown }
    }
}

/// A match in the window, with what it is being changed to.
#[derive(Debug)]
pub struct Row {
    pub m: Match,
    pub edited: Option<Match>,
}

/// What a match in the window says.
pub struct RowView {
    pub m: MatchText,
    pub edited: Option<MatchText>,
}

impl View for Row {
    type V = RowView;

    open spec fn view(&self) -> RowView {
        RowView {
            m: self.m@,
            edited: match self.edited {
                Some(e) => Some(e@),
                None => None,
            },
        }
    }
}

/// What happens to the window.
#[derive(Clone, Debug)]
pub enum M {
    Enable,
    Disable,
    Exit,
    TrayUp,
    WindowOpen,
    WindowToggle,
    WindowCloseId,
    Settings(Settings),
    SettingsSubmit,
    SettingsOpen,
    SettingsClose,
    SettingsLan(bool),
    SettingsDns(bool),
    SettingsDnsIp(String),
    SettingsDnsIpSubmit,
    SettingsDropEgressWithoutOutput(bool),
    MatchAdd,
    MatchDelete(u64, usize),
    MatchFromProc(u64, usize),
    MatchUpdate(u64, usize, String),
    MatchKind(u64, usize, Pick),
    MatchDir,
    MatchUpdateDir(u64, usize),
    MatchSubmit(u64, usize),
    Procs(String),
    Kind(Pick),
    Attached(Attached),
    Matches(Vec<Match>),
    Stats(Stats),
    DbusErr(DbusError),
    DbusFail(DbusError),
    DbusCantConnect(DbusError),
    DbusConnected,
    ActiveProcs(Vec<String>),
    MatchFocus,
    MatchUnfocus,
    ProcPopupFocus,
    ProcPopupUnfocus,
    OutputDevClick,
    OutputDevFocus,
    OutputDevUnfocus,
    OutputDevPopupFocus,
    OutputDevPopupUnfocus,
    OutputDevSet(String),
    OutputDevSubmit,
    OutputDevSetSubmit(String),
    Esc,
    ModalNext,
    ModalReplace,
    ModalDismiss,
    StatusShow,
    /// Something is done in the text of an error; whether it would change it.
    ModalEditAction(bool),
    Nop,
}

/// What is to be done.
#[derive(Debug)]
pub enum Effect {
    Send(D),
    Tray(TrayState),
    OpenWindow,
    CloseWindow,
    Exit,
    UnfocusOutputDev,
    UnfocusProc,
    UnfocusMatch(usize),
    /// The text that is shown over the window becomes this one, or none.
    ModalText(Option<String>),
    /// The action is carried out in the text that is shown over the window.
    ModalPerform,
}

/// What the tray icon is told.
pub struct TrayView {
    pub state: Tray,
    pub theme: TrayTheme,
    pub blocker: Seq<char>,
    pub output_dev: Seq<char>,
}

/// What is to be done.
pub enum EffectView {
    Send(DView),
    Tray(TrayView),
    OpenWindow,
    CloseWindow,
    Exit,
    UnfocusOutputDev,
    UnfocusProc,
    UnfocusMatch(usize),
    ModalText(Option<Seq<char>>),
    ModalPerform,
}

impl View for Effect {
    type V = EffectView;

    open spec fn view(&self) -> EffectView {
        match self {
            Effect::Send(d) => EffectView::Send(d@),
            Effect::Tray(t) => EffectView::Tray(
                TrayView {
                    state: t.state,
                    theme: t.theme,
                    blocker: t.blocker@,
                    output_dev: t.output_dev@,
                },
            ),
            Effect::OpenWindow => EffectView::OpenWindow,
            Effect::CloseWindow => EffectView::CloseWindow,
            Effect::Exit => EffectView::Exit,
            Effect::UnfocusOutputDev => EffectView::UnfocusOutputDev,
            Effect::UnfocusProc => EffectView::UnfocusProc,
            Effect::UnfocusMatch(i) => EffectView::UnfocusMatch(*i),
            Effect::ModalText(t) => EffectView::ModalText(
                match t {
                    Some(t) => Some(t@),
                    None => None,
                },
            ),
            Effect::ModalPerform => EffectView::ModalPerform,
        }
    }
}

/// The program itself.
#[derive(Clone, Copy, Debug, PartialEq, Eq, Structural)]
pub struct Shell {
    pub tray_theme: TrayTheme,
    pub tray_up: bool,
    pub window: bool,
}

/// The settings, those that the service told, and whether they are shown.
#[derive(Debug)]
pub struct Panel {
    pub settings: Settings,
    pub settings_override: Settings,
    pub show_settings: bool,
}

/// What the settings are.
pub struct PanelView {
    pub settings: SettingsView,
    pub settings_override: SettingsView,
    pub show_settings: bool,
}

impl View for Panel {
    type V = PanelView;

    open spec fn view(&self) -> PanelView {
        PanelView {
            settings: self.settings@,
            settings_override: self.settings_override@,
            show_settings: self.show_settings,
        }
    }
}

/// Where the output is typed in.
#[derive(Debug)]
pub struct OutputDev {
    pub input_focus: bool,
    pub input: String,
    pub input_sent: bool,
    pub popup_focus: bool,
}

/// What is where the output is typed in.
pub struct OutputView {
    pub input_focus: bool,
    pub input: Seq<char>,
    pub input_sent: bool,
    pub popup_focus: bool,
}

impl View for OutputDev {
    type V = OutputView;

    open spec fn view(&self) -> OutputView {
        OutputView {
            input_focus: self.input_focus,
            input: self.input@,
            input_sent: self.input_sent,
            popup_focus: self.popup_focus,
        }
    }
}

/// Where a new match is typed in, with the programs that fit it and how often
/// they run.
#[derive(Debug)]
pub struct ProcInput {
    pub input_focus: bool,
    pub input: String,
    pub input_sent: bool,
    pub popup_focus: bool,
    pub dir: Direction,
    pub kind: Pick,
    pub kind_after_refine: bool,
    pub procs_all: Option<Vec<(String, u32)>>,
    pub procs_all_max: usize,
}

/// What is where a new match is typed in.
pub struct ProcView {
    pub input_focus: bool,
    pub input: Seq<char>,
    pub input_sent: bool,
    pub popup_focus: bool,
    pub dir: Direction,
    pub kind: Pick,
    pub kind_after_refine: bool,
    pub procs_all: Option<Seq<(Seq<char>, u32)>>,
    pub procs_all_max: usize,
}

impl View for ProcInput {
    type V = ProcView;

    open spec fn view(&self) -> ProcView {
        ProcView {
            input_focus: self.input_focus,
            input: self.input@,
            input_sent: self.input_sent,
            popup_focus: self.popup_focus,
            dir: self.dir,
            kind: self.kind,
            kind_after_refine: self.kind_after_refine,
            procs_all: match self.procs_all {
                Some(v) => Some(counted(v@)),
                None => None,
            },
            procs_all_max: self.procs_all_max,
        }
    }
}

/// What each match of a list says.
pub open spec fn row_views(v: Seq<Row>) -> Seq<RowView> {
    v.map_values(|r: Row| r@)
}

/// The matches of the service, and what is active.
#[derive(Debug)]
pub struct MatchList {
    pub matches: Vec<Row>,
    /// Counts how often the matches or what is active changed.
    pub matches_gen: u64,
    pub procs_active: Vec<String>,
}

/// What the matches of the service are.
pub struct ListView {
    pub matches: Seq<RowView>,
    pub matches_gen: u64,
    pub procs_active: Seq<Seq<char>>,
}

impl View for MatchList {
    type V = ListView;

    open spec fn view(&self) -> ListView {
        ListView {
            matches: row_views(self.matches@),
            matches_gen: self.matches_gen,
            procs_active: texts_of(self.procs_active@),
        }
    }
}

/// What each error of a list says.
pub open spec fn error_views(v: Seq<DbusError>) -> Seq<ErrorView> {
    v.map_values(|e: DbusError| e@)
}

/// The errors of the connection: the one for which there is none, and those that
/// were not looked at yet, the first one being shown.
#[derive(Debug)]
pub struct Errors {
    pub dbus_conn_err: Option<DbusError>,
    pub dbus_errs: Vec<DbusError>,
    pub modal: Option<String>,
}

/// What the errors of the connection are.
pub struct ErrorsView {
    pub dbus_conn_err: Option<ErrorView>,
    pub dbus_errs: Seq<ErrorView>,
    pub modal: Option<Seq<char>>,
}

impl View for Errors {
    type V = ErrorsView;

    open spec fn view(&self) -> ErrorsView {
        ErrorsView {
            dbus_conn_err: match self.dbus_conn_err {
                Some(e) => Some(e@),
                None => None,
            },
            dbus_errs: error_views(self.dbus_errs@),
            modal: match self.modal {
                Some(t) => Some(t@),
                None => None,
            },
        }
    }
}

/// The state of the window.
#[derive(Debug)]
pub struct State {
    pub shell: Shell,
    pub panel: Panel,
    pub output_dev: OutputDev,
    pub proc: ProcInput,
    pub attached: Attached,
    pub stats: Stats,
    pub list: MatchList,
    pub errors: Errors,
}

/// What the state of the window says.
pub struct StateView {
    pub shell: Shell,
    pub panel: PanelView,
    pub output_dev: OutputView,
    pub proc: ProcView,
    pub attached: AttachedView,
    pub stats: Stats,
    pub list: ListView,
    pub errors: ErrorsView,
}

impl View for State {
    type V = StateView;

    open spec fn view(&self) -> StateView {
        StateView {
            shell: self.shell,
            panel: self.panel@,
            output_dev: self.output_dev@,
            proc: self.proc@,
            attached: self.attached@,
            stats: self.stats,
            list: self.list@,
            errors: self.errors@,
        }
    }
}

/// What each thing to be done is.
pub open spec fn effect_views(v: Seq<Effect>) -> Seq<EffectView> {
    v.map_values(|e: Effect| e@)
}

/// The state in which the window starts.
pub open spec fn first_state(theme: TrayTheme) -> StateView {
    StateView {
        shell: Shell { tray_theme: theme, tray_up: false, window: false },
        panel: PanelView {
            settings: empty_settings(),
            settings_override: empty_settings(),
            show_settings: false,
        },
        output_dev: OutputView {
            input_focus: false,
            input: Seq::empty(),
            input_sent: false,
            popup_focus: false,
        },
        proc: ProcView {
            input_focus: false,
            input: Seq::empty(),
            input_sent: false,
            popup_focus: false,
            dir: Direction::redirect,
            kind: Pick::Substring,
            kind_after_refine: false,
            procs_all: None,
            procs_all_max: 0,
        },
        attached: empty_attached(),
        stats: Stats { tx_bytes: 0, rx_bytes: 0 },
        list: ListView { matches: Seq::empty(), matches_gen: 0, procs_active: Seq::empty() },
        errors: ErrorsView { dbus_conn_err: None, dbus_errs: Seq::empty(), modal: None },
    }
}

impl State {
    /// The state in which the window starts.
    pub fn new(theme: TrayTheme) -> (r: State)
        ensures
            r@ == first_state(theme),
    {
        let r = State {
            shell: Shell { tray_theme: theme, tray_up: false, window: false },
            panel: Panel {
                settings: Settings::default(),
                settings_override: Settings::default(),
                show_settings: false,
            },
            output_dev: OutputDev {
                input_focus: false,
                input: String::new(),
                input_sent: false,
                popup_focus: false,
            },
            proc: ProcInput {
                input_focus: false,
                input: String::new(),
                input_sent: false,
                popup_focus: false,
                dir: Direction::redirect,
                kind: Pick::Substring,
                kind_after_refine: false,
                procs_all: None,
                procs_all_max: 0,
            },
            attached: Attached::default(),
            stats: Stats::default(),
            list: MatchList { matches: Vec::new(), matches_gen: 0, procs_active: Vec::new() },
            errors: Errors { dbus_conn_err: None, dbus_errs: Vec::new(), modal: None },
        };
        assert(r.output_dev.input@ =~= Seq::empty());
        assert(r.proc.input@ =~= Seq::empty());
        assert(row_views(r.list.matches@) =~= Seq::empty());
        assert(texts_of(r.list.procs_active@) =~= Seq::empty());
        assert(error_views(r.errors.dbus_errs@) =~= Seq::empty());
        r
    }
}

} // verus!
