//! What is known of applications and their windows.
use redact::Secret;
use vstd::prelude::*;

use crate::geometry::Rect;
use crate::ids::WindowServerId;
use crate::text::{contains_text, holds, same_text};

verus! {

/// A value that is kept out of logs.
#[verifier::external_type_specification]
#[verifier::external_body]
#[verifier::reject_recursive_types(T)]
pub struct ExSecret<T: ?Sized>(Secret<T>);

/// The text of a hidden title.
pub uninterp spec fn title_text(title: Secret<String>) -> Seq<char>;

/// Calls `redact::Secret::new`, which wraps the text as it is.
#[verifier::external_body]
pub(crate) fn hide_title(text: String) -> (title: Secret<String>)
    ensures
        title_text(title) == text@,
{
    Secret::new(text)
}

/// Calls `clone` of `redact::Secret`, which clones the text it wraps.
#[verifier::external_body]
pub(crate) fn copy_title(title: &Secret<String>) -> (copy: Secret<String>)
    ensures
        copy == *title,
{
    title.clone()
}

/// What is known of an application.
#[derive(Debug, PartialEq)]
pub struct AppInfo {
    pub bundle_id: Option<String>,
    pub localized_name: Option<String>,
    /// Whether the application was hidden when this info was read.
    pub is_hidden: bool,
}

impl Default for AppInfo {
    fn default() -> (info: AppInfo)
        ensures
            info == (AppInfo { bundle_id: None, localized_name: None, is_hidden: false }),
    {
        AppInfo { bundle_id: None, localized_name: None, is_hidden: false }
    }
}

/// Whether an application is among the running ones that are asked for: it has
/// a bundle id, which holds the filter if there is one.
pub fn is_listed(bundle_id: &Option<String>, filter: &Option<String>) -> (b: bool)
    ensures
        b == (bundle_id matches Some(id) && (filter matches Some(f) ==> holds(id@, f@))),
{
    match (bundle_id, filter) {
        (Some(id), Some(f)) => contains_text(id.as_str(), f.as_str()),
        (Some(_), None) => true,
        (None, _) => false,
    }
}

/// What is known of a window.
#[derive(Debug)]
pub struct WindowInfo {
    pub is_standard: bool,
    pub title: Secret<String>,
    pub frame: Rect,
    pub sys_id: Option<WindowServerId>,
    pub is_resizable: bool,
    /// The macOS Accessibility AXRole, e.g. "AXWindow".
    pub ax_role: String,
    /// The macOS Accessibility AXSubrole, e.g. "AXStandardWindow".
    pub ax_subrole: Option<String>,
}

/// Why an attribute of a window could not be read.
#[derive(Clone, Copy, Debug, PartialEq, Eq, Structural)]
pub enum ReadError {
    NoValue,
    AttributeUnsupported,
    /// Another error of the accessibility interface, by its number.
    Other(i32),
}

/// The attributes of a window, as far as they could be read.
pub struct WindowAttributes {
    pub role: Result<String, ReadError>,
    pub subrole: Result<String, ReadError>,
    pub title: Result<String, ReadError>,
    pub frame: Result<Rect, ReadError>,
    pub sys_id: Option<WindowServerId>,
    pub is_resizable: Result<bool, ReadError>,
}

impl WindowAttributes {
    /// The first attribute that a window must have and that could not be read.
    /// A window may have no subrole.
    pub open spec fn missing(self) -> Option<ReadError> {
        match (self.role, self.subrole, self.frame, self.is_resizable) {
            (Err(e), _, _, _) => Some(e),
            (_, Err(ReadError::Other(e)), _, _) => Some(ReadError::Other(e)),
            (_, _, Err(e), _) => Some(e),
            (_, _, _, Err(e)) => Some(e),
            _ => None,
        }
    }

    /// The window is an ordinary one by its role and subrole.
    pub open spec fn standard(self) -> bool {
        &&& self.role matches Ok(role)
        &&& role@ == "AXWindow"@
        &&& self.subrole matches Ok(subrole)
        &&& subrole@ == "AXStandardWindow"@
    }

    /// The title, or an empty one.
    pub open spec fn title_or_none(self) -> Seq<char> {
        match self.title {
            Ok(title) => title@,
            Err(_) => Seq::empty(),
        }
    }
}

/// Gathers what is known of a window from its attributes.
pub fn window_info(attributes: WindowAttributes) -> (r: Result<WindowInfo, ReadError>)
    ensures
        attributes.missing() matches Some(e) ==> r == Err::<WindowInfo, ReadError>(e),
        attributes.missing() is None ==> {
            &&& r matches Ok(info)
            &&& info.is_standard == attributes.standard()
            &&& title_text(info.title) == attributes.title_or_none()
            &&& attributes.frame == Ok::<Rect, ReadError>(info.frame)
            &&& info.sys_id == attributes.sys_id
            &&& attributes.is_resizable == Ok::<bool, ReadError>(info.is_resizable)
            &&& attributes.role == Ok::<String, ReadError>(info.ax_role)
            &&& info.ax_subrole == (match attributes.subrole {
                Ok(s) => Some(s),
                Err(_) => None,
            })
        },
{
    let ax_role = match attributes.role {
        Ok(role) => role,
        Err(e) => {
            return Err(e);
        },
    };
    let ax_subrole = match attributes.subrole {
        Ok(subrole) => Some(subrole),
        Err(ReadError::Other(e)) => {
            return Err(ReadError::Other(e));
        },
        Err(_) => None,
    };
    let is_standard = same_text(ax_role.as_str(), "AXWindow") && (match &ax_subrole {
        Some(s) => same_text(s.as_str(), "AXStandardWindow"),
        None => false,
    });
    let title = match attributes.title {
        Ok(title) => title,
        Err(_) => String::new(),
    };
    let frame = match attributes.frame {
        Ok(frame) => frame,
        Err(e) => {
            return Err(e);
        },
    };
    let is_resizable = match attributes.is_resizable {
        Ok(b) => b,
        Err(e) => {
            return Err(e);
        },
    };
    Ok(
        WindowInfo {
            is_standard,
            title: hide_title(title),
            frame,
            sys_id: attributes.sys_id,
            is_resizable,
            ax_role,
            ax_subrole,
        },
    )
}

/// What is known of a process.
#[derive(Clone, Copy, Debug, PartialEq, Eq, Structural)]
pub struct ProcessInfo {
    pub is_xpc: bool,
}

/// The type code of an XPC service: the characters `XPC!`.
pub const XPC_TYPE: u32 = 0x5850_4321;

impl ProcessInfo {
    /// What the type code of a process says of it.
    pub fn for_type(process_type: u32) -> (info: ProcessInfo)
        ensures
            info.is_xpc == (process_type == XPC_TYPE),
    {
        ProcessInfo { is_xpc: process_type == XPC_TYPE }
    }
}

/// A window is known if its role, its frame and whether it can be resized could
/// be read, and reading its subrole failed at most because it has none. Its
/// title does not matter. Otherwise the first of these errors is told.
pub proof fn window_must_have_its_attributes(a: WindowAttributes)
    ensures
        a.missing() is None <==> {
            &&& a.role is Ok
            &&& a.frame is Ok
            &&& a.is_resizable is Ok
            &&& a.subrole is Ok || a.subrole == Err::<String, ReadError>(ReadError::NoValue) || a.subrole == Err::<
                String,
                ReadError,
            >(ReadError::AttributeUnsupported)
        },
        a.role matches Err(e) ==> a.missing() == Some(e),
        a.role is Ok ==> (a.subrole matches Err(ReadError::Other(n)) ==> a.missing() == Some(ReadError::Other(n))),
        a.role is Ok && a.subrole is Ok ==> (a.frame matches Err(e) ==> a.missing() == Some(e)),
        a.role is Ok && a.subrole is Ok && a.frame is Ok ==> (a.is_resizable matches Err(e) ==> a.missing() == Some(
            e,
        )),
{
}

/// Only a window with both the role and the subrole of ordinary windows is one.
pub proof fn ordinary_window_has_both_roles(a: WindowAttributes)
    ensures
        a.standard() ==> a.role is Ok && a.subrole is Ok && a.role->Ok_0@ == "AXWindow"@ && a.subrole->Ok_0@
            == "AXStandardWindow"@,
        a.role is Ok && a.subrole is Ok && a.role->Ok_0@ == "AXWindow"@ && a.subrole->Ok_0@ == "AXStandardWindow"@
            ==> a.standard(),
        a.role is Err || a.subrole is Err ==> !a.standard(),
{
}

} // verus!
