//! The tray icon and its menu.

use crate::gui::icons::{argb, tray_argb, Drawings};
use crate::gui::message::{Tray, TrayState, D};
use vstd::prelude::*;
use vstd::string::StringExecFns;

verus! {

/// The name of the program.
pub fn name() -> (r: &'static str)
    ensures
        r@ == "Rebpf"@,
{
    "Rebpf"
}

/// The width and the height of the icon.
pub const ICON_SIZE: i32 = 128;

/// Properties that an entry of the menu no longer has.
#[derive(Debug)]
pub struct RemovedProps<'a> {
    pub id: i32,
    pub fields: Vec<&'a str>,
}

/// An entry of the menu.
#[derive(Debug)]
pub struct SimpleMenuItem {
    pub id: i32,
    pub enabled: bool,
    pub label: String,
    pub visible: bool,
}

/// What an entry of the menu says.
pub struct ItemView {
    pub id: i32,
    pub enabled: bool,
    pub label: Seq<char>,
    pub visible: bool,
}

impl View for SimpleMenuItem {
    type V = ItemView;

    open spec fn view(&self) -> ItemView {
        ItemView {
            id: self.id,
            enabled: self.enabled,
            label: self.label@,
            visible: self.visible,
        }
    }
}

/// What each entry of a list says.
pub open spec fn item_views(v: Seq<SimpleMenuItem>) -> Seq<ItemView> {
    v.map_values(|i: SimpleMenuItem| i@)
}

/// An entry that can be seen and chosen.
pub open spec fn menu_item(id: i32, label: Seq<char>) -> ItemView {
    ItemView { id, enabled: true, label, visible: true }
}

/// The entries of the menu.
pub open spec fn menu_items() -> Seq<ItemView> {
    seq![
        menu_item(2, "Enable"@),
        menu_item(3, "Disable"@),
        menu_item(4, "Quit "@ + "Rebpf"@),
    ]
}

/// The menu, or the part of it below an entry.
#[derive(Debug)]
pub struct MenuLayout {
    pub revision: u32,
    pub id: i32,
    /// Whether entries are shown below this one.
    pub submenu: bool,
    pub items: Vec<SimpleMenuItem>,
}

/// What choosing an entry of the menu leads to.
#[derive(Debug)]
pub enum MenuAction {
    Send(D),
    Exit,
}

/// What an event of the menu leads to: only clicks on the three entries count.
pub open spec fn menu_action(id: i32, event: Seq<char>) -> Option<MenuAction> {
    if event != "clicked"@ {
        None
    } else if id == 2 {
        Some(MenuAction::Send(D::Enable))
    } else if id == 3 {
        Some(MenuAction::Send(D::Disable))
    } else if id == 4 {
        Some(MenuAction::Exit)
    } else {
        None
    }
}

/// What the first `n` events of a group lead to.
pub open spec fn menu_actions(events: Seq<(i32, String)>, n: int) -> Seq<MenuAction>
    decreases n,
{
    if n <= 0 {
        Seq::empty()
    } else {
        match menu_action(events[n - 1].0, events[n - 1].1@) {
            Some(a) => menu_actions(events, n - 1).push(a),
            None => menu_actions(events, n - 1),
        }
    }
}

fn item(id: i32, label: String) -> (r: SimpleMenuItem)
    ensures
        r@ == menu_item(id, label@),
{
    SimpleMenuItem { id, enabled: true, label, visible: true }
}

/// The entries of the menu.
pub fn simple_menu_layout() -> (r: Vec<SimpleMenuItem>)
    ensures
        item_views(r@) == menu_items(),
{
    let mut v: Vec<SimpleMenuItem> = Vec::new();
    v.push(item(2, "Enable".to_owned()));
    v.push(item(3, "Disable".to_owned()));
    v.push(item(4, "Quit ".to_owned().concat(name())));
    assert(item_views(v@) =~= menu_items());
    v
}

/// What an event of the menu leads to.
pub fn event(id: i32, event_id: &str) -> (r: Option<MenuAction>)
    ensures
        r == menu_action(id, event_id@),
{
    if !crate::text::same_text(event_id, "clicked") {
        return None;
    }
    match id {
        2 => Some(MenuAction::Send(D::Enable)),
        3 => Some(MenuAction::Send(D::Disable)),
        4 => Some(MenuAction::Exit),
        _ => None,
    }
}

/// What the events of a group lead to, one after the other.
pub fn event_group(events: &Vec<(i32, String)>) -> (r: Vec<MenuAction>)
    ensures
        r@ == menu_actions(events@, events@.len() as int),
{
    let mut r: Vec<MenuAction> = Vec::new();
    let mut i: usize = 0;
    while i < events.len()
        invariant
            i <= events@.len(),
            r@ == menu_actions(events@, i as int),
        decreases events.len() - i,
    {
        if let Some(a) = event(events[i].0, events[i].1.as_str()) {
            r.push(a);
        }
        i += 1;
    }
    r
}

/// The entries among the given ones, in the order of the menu.
pub fn get_group_properties(ids: &Vec<i32>) -> (r: Vec<SimpleMenuItem>)
    ensures
        item_views(r@) == menu_items().filter(|m: ItemView| ids@.contains(m.id)),
{
    let ghost wanted = |m: ItemView| ids@.contains(m.id);
    let ghost all = menu_items();
    let mut items = simple_menu_layout();
    let mut r: Vec<SimpleMenuItem> = Vec::new();
    proof {
        reveal(Seq::filter);
        assert(item_views(r@) =~= all.take(0).filter(wanted));
    }
    let mut i: usize = 0;
    while items.len() > 0
        invariant
            wanted == (|m: ItemView| ids@.contains(m.id)),
            all == menu_items(),
            i <= all.len(),
            item_views(items@) == all.skip(i as int),
            item_views(r@) == all.take(i as int).filter(wanted),
        decreases items.len(),
    {
        let ghost before = items@;
        let ghost got = r@;
        let next = items.remove(0);
        proof {
            assert(item_views(before)[0] == next@);
            assert(item_views(before).len() == before.len());
            assert(all.skip(i as int)[0] == all[i as int]);
            assert(next@ == all[i as int]);
            assert(item_views(items@) =~= all.skip(i + 1)) by {
                assert forall|j: int| 0 <= j < items@.len() implies item_views(items@)[j]
                    == all.skip(i + 1)[j] by {
                    assert(items@[j] == before[j + 1]);
                    assert(item_views(before)[j + 1] == all.skip(i as int)[j + 1]);
                }
            }
            reveal(Seq::filter);
            assert(all.take(i + 1).drop_last() == all.take(i as int));
            assert(all.take(i + 1).last() == next@);
        }
        let mut found = false;
        let mut k: usize = 0;
        while k < ids.len()
            invariant
                k <= ids@.len(),
                found <==> exists|j: int| 0 <= j < k && #[trigger] ids@[j] == next.id,
            decreases ids.len() - k,
        {
            if ids[k] == next.id {
                found = true;
            }
            k += 1;
        }
        assert(found == ids@.contains(next.id));
        if found {
            r.push(next);
            assert(item_views(r@) =~= item_views(got).push(next@));
        }
        i += 1;
    }
    assert(item_views(items@).len() == 0);
    assert(all.take(i as int) =~= all);
    r
}

/// The menu below an entry: only the root has one.
pub fn get_layout(parent_id: i32) -> (r: MenuLayout)
    ensures
        r.revision == 1,
        r.id == parent_id,
        r.submenu == (parent_id == 0),
        item_views(r.items@) == (if parent_id == 0 {
            menu_items()
        } else {
            Seq::empty()
        }),
{
    if parent_id != 0 {
        let items: Vec<SimpleMenuItem> = Vec::new();
        assert(item_views(items@) =~= Seq::empty());
        return MenuLayout { revision: 1, id: parent_id, submenu: false, items };
    }
    MenuLayout { revision: 1, id: 0, submenu: true, items: simple_menu_layout() }
}

/// The name of a state.
pub open spec fn tray_name(t: Tray) -> Seq<char> {
    match t {
        Tray::NotConnected => "NotConnected"@,
        Tray::Enabled => "Enabled"@,
        Tray::Disabled => "Disabled"@,
    }
}

/// What the tray icon says when it is pointed at: the reason why nothing goes
/// out, or else the state, and the output where there is one.
pub open spec fn tip(s: TrayState) -> Seq<char> {
    let reason = if s.blocker@.len() == 0 {
        tray_name(s.state)
    } else {
        s.blocker@
    };
    let text = "Rebpf"@ + ": "@ + reason;
    if s.output_dev@.len() == 0 {
        text
    } else {
        text + " ("@ + s.output_dev@ + ")"@
    }
}

/// What the tray icon says when it is pointed at.
pub fn tool_tip(s: &TrayState) -> (r: String)
    ensures
        r@ == tip(*s),
{
    let reason: String = if s.blocker.as_str().is_empty() {
        match s.state {
            Tray::NotConnected => "NotConnected".to_owned(),
            Tray::Enabled => "Enabled".to_owned(),
            Tray::Disabled => "Disabled".to_owned(),
        }
    } else {
        s.blocker.clone()
    };
    let text = name().to_owned().concat(": ").concat(reason.as_str());
    if s.output_dev.as_str().is_empty() {
        text
    } else {
        text.concat(" (").concat(s.output_dev.as_str()).concat(")")
    }
}

/// The icon: width, height and pixels.
pub fn icon_pixmap(drawings: &Drawings, s: &TrayState) -> (r: (i32, i32, Vec<u8>))
    ensures
        r.0 == 128,
        r.1 == 128,
        r.2@ == argb(drawings.of(s.state, s.theme)),
        drawings.of(s.state, s.theme).len() == 4 * 128 * 128 ==> r.2@.len() == 4 * r.0 * r.1,
{
    (ICON_SIZE, ICON_SIZE, tray_argb(drawings, s.state, s.theme))
}

/// Every entry of the menu can be seen and chosen, and a click on it does what its
/// label says. No two entries have one number.
pub proof fn entries_do_what_they_say(i: int, j: int)
    requires
        0 <= i < j < menu_items().len(),
    ensures
        menu_items().len() == 3,
        menu_items()[i].id != menu_items()[j].id,
        menu_items()[i].enabled && menu_items()[i].visible,
        menu_items()[j].enabled && menu_items()[j].visible,
        menu_items()[0].label == "Enable"@ && menu_action(menu_items()[0].id, "clicked"@) == Some(
            MenuAction::Send(D::Enable),
        ),
        menu_items()[1].label == "Disable"@ && menu_action(menu_items()[1].id, "clicked"@) == Some(
            MenuAction::Send(D::Disable),
        ),
        menu_items()[2].label == "Quit Rebpf"@ && menu_action(menu_items()[2].id, "clicked"@)
            == Some(MenuAction::Exit),
{
    reveal_strlit("Quit ");
    reveal_strlit("Rebpf");
    reveal_strlit("Quit Rebpf");
    assert("Quit "@ + "Rebpf"@ =~= "Quit Rebpf"@);
}

/// The events of a group lead to what each of them leads to, one after the other:
/// one more adds what it leads to, if anything, behind the others.
pub proof fn groups_are_taken_in_order(events: Seq<(i32, String)>, id: i32, event: String)
    ensures
        ({
            let n = events.len() as int;
            let more = events.push((id, event));
            let clicked = event@ == "clicked"@;
            &&& clicked && id == 2 ==> menu_actions(more, n + 1) == menu_actions(events, n).push(
                MenuAction::Send(D::Enable),
            )
            &&& clicked && id == 3 ==> menu_actions(more, n + 1) == menu_actions(events, n).push(
                MenuAction::Send(D::Disable),
            )
            &&& clicked && id == 4 ==> menu_actions(more, n + 1) == menu_actions(events, n).push(
                MenuAction::Exit,
            )
            &&& !clicked || id < 2 || id > 4 ==> menu_actions(more, n + 1) == menu_actions(
                events,
                n,
            )
        }),
{
    earlier_events_stay(events, (id, event), events.len() as int);
}

/// What the first events of a group lead to does not depend on the last one.
proof fn earlier_events_stay(events: Seq<(i32, String)>, last: (i32, String), n: int)
    requires
        n <= events.len(),
    ensures
        menu_actions(events.push(last), n) == menu_actions(events, n),
    decreases n,
{
    if n > 0 {
        earlier_events_stay(events, last, n - 1);
    }
}

} // verus!
