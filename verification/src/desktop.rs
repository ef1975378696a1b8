//! Launcher records and menu item properties.
//!
//! A `Launcher` is the decoded form of one launcher definition file; a
//! `MenuProps` record is what the menu exposes for one item.  Icon
//! references that name a file are rasterized by a collaborator outside
//! this crate; the prepared bitmap bytes accompany the record.

use vstd::prelude::*;
use vstd::slice::slice_to_vec;
use crate::strings::contains_char;
use crate::strings::str_eq;
use crate::taxonomy::Category;
use crate::taxonomy::spec_category_label;

verus! {

/// One decoded launcher definition: display name, category list, command
/// line (field codes already substituted), icon reference, and whether
/// the launcher asks to be displayed.
#[derive(Debug, Clone)]
pub struct Launcher {
    pub path: String,
    pub name: String,
    pub categories: Vec<Category>,
    pub command: String,
    pub icon: Option<String>,
    pub display: bool,
}

/// The placeholder record that keeps a name's bucket non-empty after its
/// last real record is removed: nothing to display, nothing to run.
pub fn tombstone_launcher(path: String, name: String) -> (r: Launcher)
    ensures
        r.path == path,
        r.name == name,
        r.categories@ =~= Seq::<Category>::empty(),
        r.command@ =~= Seq::<char>::empty(),
        r.icon is None,
        r.display == false,
{
    Launcher {
        path,
        name,
        categories: Vec::new(),
        command: String::new(),
        icon: None,
        display: false,
    }
}

/// The properties the menu stores for one item.
#[derive(Debug)]
pub struct MenuProps {
    pub label: String,
    pub visible: bool,
    pub enabled: bool,
    pub icon_name: String,
    pub icon_data: Vec<u8>,
    pub entry_type: String,
    pub children_display: String,
}

/// Whether two property records carry the same values.
pub open spec fn spec_props_like(a: MenuProps, b: MenuProps) -> bool {
    &&& a.label == b.label
    &&& a.visible == b.visible
    &&& a.enabled == b.enabled
    &&& a.icon_name == b.icon_name
    &&& a.icon_data@ == b.icon_data@
    &&& a.entry_type == b.entry_type
    &&& a.children_display == b.children_display
}

/// An exact copy of a property record.
pub fn clone_props(p: &MenuProps) -> (r: MenuProps)
    ensures
        spec_props_like(r, *p),
{
    MenuProps {
        label: p.label.clone(),
        visible: p.visible,
        enabled: p.enabled,
        icon_name: p.icon_name.clone(),
        icon_data: slice_to_vec(p.icon_data.as_slice()),
        entry_type: p.entry_type.clone(),
        children_display: p.children_display.clone(),
    }
}

/// Whether an icon reference names a file (to rasterize) rather than a
/// theme icon (to pass through by name).
pub open spec fn spec_icon_is_path(icon: Seq<char>) -> bool {
    icon.contains('/')
}

pub fn icon_is_path(icon: &str) -> (r: bool)
    ensures
        r == spec_icon_is_path(icon@),
{
    contains_char(icon, '/')
}

/// The properties a launcher record is displayed with, given the prepared
/// bitmap `data` for a file icon (empty when rasterization failed or no
/// file icon is named).
pub open spec fn spec_launcher_props(l: Launcher, data: Seq<u8>, r: MenuProps) -> bool {
    &&& r.label@ == l.name@
    &&& r.visible == l.display
    &&& r.enabled == true
    &&& r.entry_type@ == "standard"@
    &&& r.children_display@ == Seq::<char>::empty()
    &&& match l.icon {
        Some(ic) => {
            if spec_icon_is_path(ic@) {
                r.icon_name@ == Seq::<char>::empty() && r.icon_data@ == data
            } else {
                r.icon_name@ == ic@ && r.icon_data@ == Seq::<u8>::empty()
            }
        },
        None => r.icon_name@ == Seq::<char>::empty() && r.icon_data@ == Seq::<u8>::empty(),
    }
}

pub fn launcher_props(launcher: &Launcher, icon_data: &Vec<u8>) -> (r: MenuProps)
    ensures
        spec_launcher_props(*launcher, icon_data@, r),
{
    let mut props = MenuProps {
        label: launcher.name.clone(),
        visible: launcher.display,
        icon_name: String::new(),
        entry_type: "standard".to_owned(),
        children_display: String::new(),
        icon_data: Vec::new(),
        enabled: true,
    };
    match &launcher.icon {
        Some(icon_ref) => {
            if icon_is_path(icon_ref.as_str()) {
                props.icon_data = slice_to_vec(icon_data.as_slice());
            } else {
                props.icon_name = icon_ref.clone();
            }
        },
        None => {},
    }
    props
}

/// The properties of a category node: its label, shown as a submenu.
pub fn category_props(c: Category) -> (r: MenuProps)
    ensures
        r.label@ == spec_category_label(c),
        r.visible == true,
        r.enabled == true,
        r.icon_name@ == Seq::<char>::empty(),
        r.icon_data@ == Seq::<u8>::empty(),
        r.entry_type@ == "standard"@,
        r.children_display@ == "submenu"@,
{
    MenuProps {
        label: crate::taxonomy::category_string(c).to_owned(),
        visible: true,
        icon_name: String::new(),
        entry_type: "standard".to_owned(),
        children_display: "submenu".to_owned(),
        icon_data: Vec::new(),
        enabled: true,
    }
}

/// The properties of the menu root: unlabelled, shown as a submenu.
pub fn root_props() -> (r: MenuProps)
    ensures
        r.label@ == Seq::<char>::empty(),
        r.visible == true,
        r.enabled == true,
        r.icon_name@ == Seq::<char>::empty(),
        r.icon_data@ == Seq::<u8>::empty(),
        r.entry_type@ == "standard"@,
        r.children_display@ == "submenu"@,
{
    MenuProps {
        label: String::new(),
        visible: true,
        icon_name: String::new(),
        entry_type: "standard".to_owned(),
        children_display: "submenu".to_owned(),
        icon_data: Vec::new(),
        enabled: true,
    }
}

/// The first entry of a launcher's category list, when it has one.
pub open spec fn spec_first_category(l: Launcher) -> Option<Category> {
    if l.categories@.len() == 0 {
        None
    } else {
        Some(l.categories@[0])
    }
}

/// Whether two string references to icons agree.
pub open spec fn spec_opt_str_eq(a: Option<String>, b: Option<String>) -> bool {
    match (a, b) {
        (Option::None, Option::None) => true,
        (Option::Some(x), Option::Some(y)) => x@ == y@,
        _ => false,
    }
}

/// Whether two records differ in any displayed field: leading category,
/// display flag, icon reference, or display name.
pub open spec fn spec_launcher_updated(orig: Launcher, new: Launcher) -> bool {
    ||| spec_first_category(orig) != spec_first_category(new)
    ||| orig.display != new.display
    ||| !spec_opt_str_eq(orig.icon, new.icon)
    ||| orig.name@ != new.name@
}

pub fn launcher_updated(orig: &Launcher, new: &Launcher) -> (r: bool)
    ensures
        r == spec_launcher_updated(*orig, *new),
{
    let cat_differs: bool = if orig.categories.len() == 0 {
        new.categories.len() != 0
    } else if new.categories.len() == 0 {
        true
    } else {
        orig.categories[0] != new.categories[0]
    };
    let icon_same: bool = match (&orig.icon, &new.icon) {
        (Option::None, Option::None) => true,
        (Option::Some(x), Option::Some(y)) => str_eq(x.as_str(), y.as_str()),
        _ => false,
    };
    let name_same = str_eq(orig.name.as_str(), new.name.as_str());
    cat_differs || orig.display != new.display || !icon_same || !name_same
}

} // verus!
