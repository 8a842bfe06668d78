//! The launcher form shown when no command is given: its fields and navigation, the
//! list of launchable files, and the parsing of what is typed into it.

use crate::process::tracking::{
    default_tracking, file_name_of, known_file_name, name_fits, path_added, stem_fits, ProcessTrackingConfig,
};
use crate::text;
use crate::tui::events::KeyCode;
use vstd::prelude::*;

verus! {

/// A field of the launcher form.
#[derive(Debug, Clone, Copy, PartialEq, Eq, Structural)]
pub enum Field {
    Target,
    Arguments,
    Workdir,
    Start,
    Listen,
    MaxBody,
    Env,
    SaveSession,
    HttpsInspection,
    OnlyHttp1,
    ExtraCaEnv,
    Redact,
    ShowSecrets,
    CaDir,
    CaStatus,
    CreateCa,
    InstallCaTrust,
    CaPath,
    CaFingerprint,
    RemoveCa,
}

/// The number of fields in selection order.
pub const FIELD_COUNT: usize = 20;

/// The number of rows of the form.
pub const FIELD_ROW_COUNT: usize = 13;

/// The fields in the order the selection index counts them.
pub open spec fn field_order() -> Seq<Field> {
    seq![
        Field::Target,
        Field::Arguments,
        Field::Workdir,
        Field::Listen,
        Field::MaxBody,
        Field::Env,
        Field::SaveSession,
        Field::HttpsInspection,
        Field::OnlyHttp1,
        Field::ExtraCaEnv,
        Field::Redact,
        Field::ShowSecrets,
        Field::CaDir,
        Field::CaStatus,
        Field::CreateCa,
        Field::InstallCaTrust,
        Field::CaPath,
        Field::CaFingerprint,
        Field::RemoveCa,
        Field::Start,
    ]
}

/// The fields of each row of the form, left to right.
pub open spec fn field_row(r: int) -> Seq<Field> {
    if r == 0 {
        seq![Field::Target]
    } else if r == 1 {
        seq![Field::Arguments]
    } else if r == 2 {
        seq![Field::Workdir]
    } else if r == 3 {
        seq![Field::Listen, Field::CaDir]
    } else if r == 4 {
        seq![Field::MaxBody, Field::CaStatus]
    } else if r == 5 {
        seq![Field::Env, Field::CreateCa]
    } else if r == 6 {
        seq![Field::SaveSession, Field::InstallCaTrust]
    } else if r == 7 {
        seq![Field::HttpsInspection, Field::CaPath]
    } else if r == 8 {
        seq![Field::OnlyHttp1, Field::CaFingerprint]
    } else if r == 9 {
        seq![Field::ExtraCaEnv, Field::RemoveCa]
    } else if r == 10 {
        seq![Field::Redact]
    } else if r == 11 {
        seq![Field::ShowSecrets]
    } else {
        seq![Field::Start]
    }
}

/// The field at a selection index.
pub fn field_at(i: usize) -> (r: Field)
    requires
        i < FIELD_COUNT,
    ensures
        r == field_order()[i as int],
{
    match i {
        0 => Field::Target,
        1 => Field::Arguments,
        2 => Field::Workdir,
        3 => Field::Listen,
        4 => Field::MaxBody,
        5 => Field::Env,
        6 => Field::SaveSession,
        7 => Field::HttpsInspection,
        8 => Field::OnlyHttp1,
        9 => Field::ExtraCaEnv,
        10 => Field::Redact,
        11 => Field::ShowSecrets,
        12 => Field::CaDir,
        13 => Field::CaStatus,
        14 => Field::CreateCa,
        15 => Field::InstallCaTrust,
        16 => Field::CaPath,
        17 => Field::CaFingerprint,
        18 => Field::RemoveCa,
        _ => Field::Start,
    }
}

/// The selection index of a field.
pub fn field_index(f: Field) -> (r: usize)
    ensures
        r < FIELD_COUNT,
        field_order()[r as int] == f,
{
    match f {
        Field::Target => 0,
        Field::Arguments => 1,
        Field::Workdir => 2,
        Field::Listen => 3,
        Field::MaxBody => 4,
        Field::Env => 5,
        Field::SaveSession => 6,
        Field::HttpsInspection => 7,
        Field::OnlyHttp1 => 8,
        Field::ExtraCaEnv => 9,
        Field::Redact => 10,
        Field::ShowSecrets => 11,
        Field::CaDir => 12,
        Field::CaStatus => 13,
        Field::CreateCa => 14,
        Field::InstallCaTrust => 15,
        Field::CaPath => 16,
        Field::CaFingerprint => 17,
        Field::RemoveCa => 18,
        Field::Start => 19,
    }
}

/// The row and column of a field.
pub fn field_position(f: Field) -> (r: (usize, usize))
    ensures
        (r.0 as int, r.1 as int) == field_pos(f),
        r.0 < FIELD_ROW_COUNT,
        r.1 < field_row(r.0 as int).len(),
        field_row(r.0 as int)[r.1 as int] == f,
{
    match f {
        Field::Target => (0, 0),
        Field::Arguments => (1, 0),
        Field::Workdir => (2, 0),
        Field::Listen => (3, 0),
        Field::CaDir => (3, 1),
        Field::MaxBody => (4, 0),
        Field::CaStatus => (4, 1),
        Field::Env => (5, 0),
        Field::CreateCa => (5, 1),
        Field::SaveSession => (6, 0),
        Field::InstallCaTrust => (6, 1),
        Field::HttpsInspection => (7, 0),
        Field::CaPath => (7, 1),
        Field::OnlyHttp1 => (8, 0),
        Field::CaFingerprint => (8, 1),
        Field::ExtraCaEnv => (9, 0),
        Field::RemoveCa => (9, 1),
        Field::Redact => (10, 0),
        Field::ShowSecrets => (11, 0),
        Field::Start => (12, 0),
    }
}

fn row_len(r: usize) -> (n: usize)
    requires
        r < FIELD_ROW_COUNT,
    ensures
        n == field_row(r as int).len(),
{
    if 3 <= r && r <= 9 {
        2
    } else {
        1
    }
}

fn field_in_row(r: usize, c: usize) -> (f: Field)
    requires
        r < FIELD_ROW_COUNT,
        c < field_row(r as int).len(),
    ensures
        f == field_row(r as int)[c as int],
{
    match r {
        0 => Field::Target,
        1 => Field::Arguments,
        2 => Field::Workdir,
        3 => if c == 0 {
            Field::Listen
        } else {
            Field::CaDir
        },
        4 => if c == 0 {
            Field::MaxBody
        } else {
            Field::CaStatus
        },
        5 => if c == 0 {
            Field::Env
        } else {
            Field::CreateCa
        },
        6 => if c == 0 {
            Field::SaveSession
        } else {
            Field::InstallCaTrust
        },
        7 => if c == 0 {
            Field::HttpsInspection
        } else {
            Field::CaPath
        },
        8 => if c == 0 {
            Field::OnlyHttp1
        } else {
            Field::CaFingerprint
        },
        9 => if c == 0 {
            Field::ExtraCaEnv
        } else {
            Field::RemoveCa
        },
        10 => Field::Redact,
        11 => Field::ShowSecrets,
        _ => Field::Start,
    }
}

/// The label of a field.
pub open spec fn field_label_of(f: Field) -> Seq<char> {
    match f {
        Field::Target => "Program path"@,
        Field::Arguments => "Arguments"@,
        Field::Workdir => "Workdir"@,
        Field::Start => "Start"@,
        Field::Listen => "Proxy listen"@,
        Field::MaxBody => "Max body bytes"@,
        Field::Env => "Extra env"@,
        Field::SaveSession => "Save JSON"@,
        Field::HttpsInspection => "HTTPS inspect"@,
        Field::OnlyHttp1 => "Only HTTP/1.1"@,
        Field::ExtraCaEnv => "CA env vars"@,
        Field::Redact => "Redact body"@,
        Field::ShowSecrets => "Show secrets"@,
        Field::CaDir => "CA directory"@,
        Field::CaStatus => "CA status"@,
        Field::CreateCa => "Create/load CA"@,
        Field::InstallCaTrust => "Trust in OS"@,
        Field::CaPath => "Show path"@,
        Field::CaFingerprint => "Fingerprint"@,
        Field::RemoveCa => "Remove files"@,
    }
}

/// The label of a field.
pub fn field_label(f: Field) -> (r: &'static str)
    ensures
        r@ == field_label_of(f),
{
    match f {
        Field::Target => "Program path",
        Field::Arguments => "Arguments",
        Field::Workdir => "Workdir",
        Field::Start => "Start",
        Field::Listen => "Proxy listen",
        Field::MaxBody => "Max body bytes",
        Field::Env => "Extra env",
        Field::SaveSession => "Save JSON",
        Field::HttpsInspection => "HTTPS inspect",
        Field::OnlyHttp1 => "Only HTTP/1.1",
        Field::ExtraCaEnv => "CA env vars",
        Field::Redact => "Redact body",
        Field::ShowSecrets => "Show secrets",
        Field::CaDir => "CA directory",
        Field::CaStatus => "CA status",
        Field::CreateCa => "Create/load CA",
        Field::InstallCaTrust => "Trust in OS",
        Field::CaPath => "Show path",
        Field::CaFingerprint => "Fingerprint",
        Field::RemoveCa => "Remove files",
    }
}

/// Whether the launcher shows the form or the list of files of a folder.
#[derive(Debug, Clone, Copy, PartialEq, Eq, Structural)]
pub enum LauncherScreen {
    Form,
    LaunchSelect,
}

/// A file of a folder that can be launched, and its kind.
#[derive(Debug, Clone)]
pub struct LaunchOption {
    pub path: String,
    pub kind: &'static str,
}

/// Everything the launcher remembers.
#[derive(Debug)]
pub struct LauncherState {
    pub screen: LauncherScreen,
    pub selected: usize,
    pub editing: Option<Field>,
    pub edit_buffer: String,
    pub target: String,
    pub arguments: String,
    pub workdir: String,
    pub listen: String,
    pub ca_dir: String,
    pub max_body_size: String,
    pub env: String,
    pub save_session: String,
    pub https_inspection: bool,
    pub only_http1: bool,
    pub extra_ca_env: bool,
    pub redact: bool,
    pub show_secrets: bool,
    pub ca_trust_status: String,
    pub confirm_remove_ca: bool,
    pub launch_options: Vec<LaunchOption>,
    pub launch_selected: usize,
    pub launch_filter: String,
    pub message: String,
}

impl Default for LauncherState {
    fn default() -> (r: Self)
        ensures
            r.screen == LauncherScreen::Form,
            r.selected == 0,
            r.editing is None,
            r.edit_buffer@.len() == 0,
            r.target@.len() == 0,
            r.arguments@.len() == 0,
            r.workdir@.len() == 0,
            r.listen@ == "127.0.0.1:8080"@,
            r.ca_dir@.len() == 0,
            r.max_body_size@ == "1048576"@,
            r.env@.len() == 0,
            r.save_session@.len() == 0,
            !r.https_inspection,
            !r.only_http1,
            r.extra_ca_env,
            r.redact,
            !r.show_secrets,
            r.ca_trust_status@ == "not checked"@,
            !r.confirm_remove_ca,
            r.launch_options@.len() == 0,
            r.launch_selected == 0,
            r.launch_filter@.len() == 0,
            r.message@ == "Choose a program, tune launch settings, then start."@,
    {
        LauncherState {
            screen: LauncherScreen::Form,
            selected: 0,
            editing: None,
            edit_buffer: String::new(),
            target: String::new(),
            arguments: String::new(),
            workdir: String::new(),
            listen: text::to_owned("127.0.0.1:8080"),
            ca_dir: String::new(),
            max_body_size: text::to_owned("1048576"),
            env: String::new(),
            save_session: String::new(),
            https_inspection: false,
            only_http1: false,
            extra_ca_env: true,
            redact: true,
            show_secrets: false,
            ca_trust_status: text::to_owned("not checked"),
            confirm_remove_ca: false,
            launch_options: Vec::new(),
            launch_selected: 0,
            launch_filter: String::new(),
            message: text::to_owned("Choose a program, tune launch settings, then start."),
        }
    }
}

/// The selected field; an index past the fields counts as the program path.
pub open spec fn selected_field_of(selected: usize) -> Field {
    if selected < FIELD_COUNT {
        field_order()[selected as int]
    } else {
        Field::Target
    }
}

/// The selected field.
pub fn selected_field(state: &LauncherState) -> (r: Field)
    ensures
        r == selected_field_of(state.selected),
{
    if state.selected < FIELD_COUNT {
        field_at(state.selected)
    } else {
        Field::Target
    }
}

/// `b` is `a` with only the selection and message changed: `f` selected, message
/// cleared.
pub open spec fn field_selected(a: LauncherState, b: LauncherState, f: Field) -> bool {
    &&& field_order()[b.selected as int] == f
    &&& b.selected < FIELD_COUNT
    &&& b.message@.len() == 0
    &&& b == (LauncherState { selected: b.selected, message: b.message, ..a })
}

fn select_field(state: &mut LauncherState, f: Field)
    ensures
        field_selected(*old(state), *final(state), f),
{
    state.selected = field_index(f);
    state.message = String::new();
}

/// `b` is `a` with only the message changed, to `m`.
pub open spec fn launcher_message(a: LauncherState, b: LauncherState, m: Seq<char>) -> bool {
    b.message@ == m && b == (LauncherState { message: b.message, ..a })
}

fn set_launcher_message(state: &mut LauncherState, m: &str)
    ensures
        launcher_message(*old(state), *final(state), m@),
{
    state.message = text::to_owned(m);
}

/// Moving the selection to the row above (`up`) or below, keeping the column as far
/// as the row allows.
pub open spec fn moved_vertically(a: LauncherState, b: LauncherState, up: bool) -> bool {
    let f = selected_field_of(a.selected);
    let (row, col) = field_pos(f);
    let next = if up {
        if row > 0 {
            row - 1
        } else {
            0
        }
    } else if row + 1 < FIELD_ROW_COUNT {
        row + 1
    } else {
        FIELD_ROW_COUNT - 1
    };
    if next == row {
        launcher_message(
            a,
            b,
            if up {
                "Already at the first row."@
            } else {
                "Already at the last row."@
            },
        )
    } else {
        let fields = field_row(next);
        field_selected(a, b, fields[if col < fields.len() { col } else { fields.len() - 1 }])
    }
}

/// The row and column of a field.
pub open spec fn field_pos(f: Field) -> (int, int) {
    match f {
        Field::Target => (0, 0),
        Field::Arguments => (1, 0),
        Field::Workdir => (2, 0),
        Field::Listen => (3, 0),
        Field::CaDir => (3, 1),
        Field::MaxBody => (4, 0),
        Field::CaStatus => (4, 1),
        Field::Env => (5, 0),
        Field::CreateCa => (5, 1),
        Field::SaveSession => (6, 0),
        Field::InstallCaTrust => (6, 1),
        Field::HttpsInspection => (7, 0),
        Field::CaPath => (7, 1),
        Field::OnlyHttp1 => (8, 0),
        Field::CaFingerprint => (8, 1),
        Field::ExtraCaEnv => (9, 0),
        Field::RemoveCa => (9, 1),
        Field::Redact => (10, 0),
        Field::ShowSecrets => (11, 0),
        Field::Start => (12, 0),
    }
}

/// Moves the selection a row up for a negative direction, else a row down.
pub fn move_selection_vertical(state: &mut LauncherState, direction: isize)
    ensures
        moved_vertically(*old(state), *final(state), direction < 0),
{
    let f = selected_field(state);
    let (row, col) = field_position(f);
    let next = if direction < 0 {
        if row > 0 {
            row - 1
        } else {
            0
        }
    } else if row + 1 < FIELD_ROW_COUNT {
        row + 1
    } else {
        FIELD_ROW_COUNT - 1
    };
    if next == row {
        if direction < 0 {
            set_launcher_message(state, "Already at the first row.");
        } else {
            set_launcher_message(state, "Already at the last row.");
        }
    } else {
        let n = row_len(next);
        let c = if col < n {
            col
        } else {
            n - 1
        };
        let target = field_in_row(next, c);
        select_field(state, target);
    }
}

/// Moving the selection to the field left (`left`) or right in the same row.
pub open spec fn moved_horizontally(a: LauncherState, b: LauncherState, left: bool) -> bool {
    let f = selected_field_of(a.selected);
    let (row, col) = field_pos(f);
    let fields = field_row(row);
    let next = if left {
        if col > 0 {
            col - 1
        } else {
            0
        }
    } else if col + 1 < fields.len() {
        col + 1
    } else {
        fields.len() - 1
    };
    if next == col {
        launcher_message(
            a,
            b,
            if left {
                "No field to the left."@
            } else {
                "No field to the right."@
            },
        )
    } else {
        field_selected(a, b, fields[next])
    }
}

/// Moves the selection a field left for a negative direction, else a field right.
pub fn move_selection_horizontal(state: &mut LauncherState, direction: isize)
    ensures
        moved_horizontally(*old(state), *final(state), direction < 0),
{
    let f = selected_field(state);
    let (row, col) = field_position(f);
    let n = row_len(row);
    let next = if direction < 0 {
        if col > 0 {
            col - 1
        } else {
            0
        }
    } else if col + 1 < n {
        col + 1
    } else {
        n - 1
    };
    if next == col {
        if direction < 0 {
            set_launcher_message(state, "No field to the left.");
        } else {
            set_launcher_message(state, "No field to the right.");
        }
        return;
    }
    let target = field_in_row(row, next);
    select_field(state, target);
}

// ---------------------------------------------------------------------------
// Values
// ---------------------------------------------------------------------------

/// A value, or `<placeholder>` when it is blank.
pub open spec fn display_empty_of(value: Seq<char>, placeholder: Seq<char>) -> Seq<char> {
    if text::trim(value).len() == 0 {
        "<"@ + placeholder + ">"@
    } else {
        value
    }
}

/// A value, or `<placeholder>` when it is blank.
pub fn display_empty(value: &str, placeholder: &str) -> (r: String)
    ensures
        r@ == display_empty_of(value@, placeholder@),
{
    let t = text::trim_str(value);
    if t.as_str().is_empty() {
        let mut r = text::to_owned("<");
        text::push_str(&mut r, placeholder);
        text::push_str(&mut r, ">");
        r
    } else {
        text::to_owned(value)
    }
}

/// `ON` or `OFF`.
pub fn on_off(value: bool) -> (r: String)
    ensures
        r@ == (if value {
            "ON"@
        } else {
            "OFF"@
        }),
{
    if value {
        text::to_owned("ON")
    } else {
        text::to_owned("OFF")
    }
}

/// The trust field's value: the trust status and the hint that Enter installs or
/// checks it.
pub fn ca_trust_value(state: &LauncherState) -> (r: String)
    ensures
        r@ == state.ca_trust_status@ + " | Enter install/check"@,
{
    let mut r = state.ca_trust_status.clone();
    text::push_str(&mut r, " | Enter install/check");
    r
}

/// The status field's value, given whether the CA certificate file exists.
pub fn ca_status_value(state: &LauncherState, created: bool) -> (r: String)
    ensures
        created ==> r@ == "created | trust: "@ + state.ca_trust_status@,
        !created ==> r@ == "not created"@,
{
    if created {
        let mut r = text::to_owned("created | trust: ");
        text::push_str(&mut r, state.ca_trust_status.as_str());
        r
    } else {
        text::to_owned("not created")
    }
}

/// The text a field starts editing from: its value for the text fields, nothing
/// for the switches and actions.
pub open spec fn editable_of(state: LauncherState, f: Field) -> Seq<char> {
    match f {
        Field::Target => state.target@,
        Field::Arguments => state.arguments@,
        Field::Workdir => state.workdir@,
        Field::Listen => state.listen@,
        Field::CaDir => state.ca_dir@,
        Field::MaxBody => state.max_body_size@,
        Field::Env => state.env@,
        Field::SaveSession => state.save_session@,
        _ => Seq::empty(),
    }
}

/// The text a field starts editing from.
pub fn editable_value(state: &LauncherState, f: Field) -> (r: String)
    ensures
        r@ == editable_of(*state, f),
{
    match f {
        Field::Target => state.target.clone(),
        Field::Arguments => state.arguments.clone(),
        Field::Workdir => state.workdir.clone(),
        Field::Listen => state.listen.clone(),
        Field::CaDir => state.ca_dir.clone(),
        Field::MaxBody => state.max_body_size.clone(),
        Field::Env => state.env.clone(),
        Field::SaveSession => state.save_session.clone(),
        _ => String::new(),
    }
}

/// Storing the trimmed edit buffer into a text field; a new CA directory makes the
/// trust status unchecked; the switches and actions keep nothing.
pub open spec fn edit_applied(a: LauncherState, b: LauncherState, f: Field) -> bool {
    let v = text::trim(a.edit_buffer@);
    match f {
        Field::Target => b.target@ == v && b == (LauncherState { target: b.target, ..a }),
        Field::Arguments => b.arguments@ == v && b == (LauncherState { arguments: b.arguments, ..a }),
        Field::Workdir => b.workdir@ == v && b == (LauncherState { workdir: b.workdir, ..a }),
        Field::Listen => b.listen@ == v && b == (LauncherState { listen: b.listen, ..a }),
        Field::CaDir => b.ca_dir@ == v && b.ca_trust_status@ == "not checked"@ && b == (LauncherState {
            ca_dir: b.ca_dir,
            ca_trust_status: b.ca_trust_status,
            ..a
        }),
        Field::MaxBody => b.max_body_size@ == v && b == (LauncherState { max_body_size: b.max_body_size, ..a }),
        Field::Env => b.env@ == v && b == (LauncherState { env: b.env, ..a }),
        Field::SaveSession => b.save_session@ == v && b == (LauncherState { save_session: b.save_session, ..a }),
        _ => b == a,
    }
}

/// Stores the edit buffer into a field.
pub fn apply_edit(state: &mut LauncherState, f: Field)
    ensures
        edit_applied(*old(state), *final(state), f),
{
    let value = text::trim_str(state.edit_buffer.as_str());
    match f {
        Field::Target => state.target = value,
        Field::Arguments => state.arguments = value,
        Field::Workdir => state.workdir = value,
        Field::Listen => state.listen = value,
        Field::CaDir => {
            state.ca_dir = value;
            state.ca_trust_status = text::to_owned("not checked");
        },
        Field::MaxBody => state.max_body_size = value,
        Field::Env => state.env = value,
        Field::SaveSession => state.save_session = value,
        _ => {},
    }
}


/// Flipping a switch field and saying what it now does.
pub open spec fn switch_toggled(a: LauncherState, b: LauncherState, f: Field) -> bool {
    match f {
        Field::HttpsInspection => launcher_message(
            LauncherState { https_inspection: !a.https_inspection, ..a },
            b,
            if !a.https_inspection {
                "HTTPS inspection enabled. Make sure the TLScope CA is trusted."@
            } else {
                "HTTPS inspection disabled; CONNECT will be tunneled."@
            },
        ),
        Field::OnlyHttp1 => launcher_message(
            LauncherState { only_http1: !a.only_http1, ..a },
            b,
            if !a.only_http1 {
                "HTTP/2 ALPN disabled; inspected HTTPS will stay on HTTP/1.1."@
            } else {
                "HTTP/2 ALPN enabled for inspected HTTPS."@
            },
        ),
        Field::ExtraCaEnv => launcher_message(
            LauncherState { extra_ca_env: !a.extra_ca_env, ..a },
            b,
            if !a.extra_ca_env {
                "Extra CA environment variables will be passed to the child."@
            } else {
                "Extra CA environment variables disabled."@
            },
        ),
        Field::Redact => launcher_message(
            LauncherState { redact: !a.redact, ..a },
            b,
            if !a.redact {
                "JSON/form sensitive fields will be redacted."@
            } else {
                "Only default sensitive headers will be redacted."@
            },
        ),
        Field::ShowSecrets => launcher_message(
            LauncherState { show_secrets: !a.show_secrets, ..a },
            b,
            if !a.show_secrets {
                "Sensitive values will be visible in UI and exports."@
            } else {
                "Sensitive values will be redacted."@
            },
        ),
        _ => b == a,
    }
}

/// Flips a switch field of the form.
pub fn toggle_switch(state: &mut LauncherState, f: Field)
    ensures
        switch_toggled(*old(state), *final(state), f),
{
    match f {
        Field::HttpsInspection => {
            state.https_inspection = !state.https_inspection;
            if state.https_inspection {
                set_launcher_message(state, "HTTPS inspection enabled. Make sure the TLScope CA is trusted.");
            } else {
                set_launcher_message(state, "HTTPS inspection disabled; CONNECT will be tunneled.");
            }
        },
        Field::OnlyHttp1 => {
            state.only_http1 = !state.only_http1;
            if state.only_http1 {
                set_launcher_message(state, "HTTP/2 ALPN disabled; inspected HTTPS will stay on HTTP/1.1.");
            } else {
                set_launcher_message(state, "HTTP/2 ALPN enabled for inspected HTTPS.");
            }
        },
        Field::ExtraCaEnv => {
            state.extra_ca_env = !state.extra_ca_env;
            if state.extra_ca_env {
                set_launcher_message(state, "Extra CA environment variables will be passed to the child.");
            } else {
                set_launcher_message(state, "Extra CA environment variables disabled.");
            }
        },
        Field::Redact => {
            state.redact = !state.redact;
            if state.redact {
                set_launcher_message(state, "JSON/form sensitive fields will be redacted.");
            } else {
                set_launcher_message(state, "Only default sensitive headers will be redacted.");
            }
        },
        Field::ShowSecrets => {
            state.show_secrets = !state.show_secrets;
            if state.show_secrets {
                set_launcher_message(state, "Sensitive values will be visible in UI and exports.");
            } else {
                set_launcher_message(state, "Sensitive values will be redacted.");
            }
        },
        _ => {},
    }
}

// ---------------------------------------------------------------------------
// Parsing what is typed
// ---------------------------------------------------------------------------

/// Splitting arguments from character `i` on, with the words found so far, the
/// current word and the open quote: quotes group words, a backslash inside double
/// quotes takes the next character as it is, whitespace outside quotes ends a word.
pub open spec fn split_args_from(
    s: Seq<char>,
    i: int,
    args: Seq<Seq<char>>,
    cur: Seq<char>,
    quote: Option<char>,
) -> Result<Seq<Seq<char>>, Seq<char>>
    decreases s.len() - i,
{
    if i < 0 || i >= s.len() {
        match quote {
            Some(q) => Err("unclosed quote "@ + seq![q] + " in arguments"@),
            None => Ok(
                if cur.len() > 0 {
                    args.push(cur)
                } else {
                    args
                },
            ),
        }
    } else {
        let ch = s[i];
        if (ch == '"' || ch == '\'') && quote is None {
            split_args_from(s, i + 1, args, cur, Some(ch))
        } else if quote == Some(ch) {
            split_args_from(s, i + 1, args, cur, None)
        } else if ch == '\\' && quote == Some('"') {
            if i + 1 < s.len() {
                split_args_from(s, i + 2, args, cur.push(s[i + 1]), quote)
            } else {
                split_args_from(s, i + 1, args, cur.push('\\'), quote)
            }
        } else if text::is_ws(ch) && quote is None {
            split_args_from(
                s,
                i + 1,
                if cur.len() > 0 {
                    args.push(cur)
                } else {
                    args
                },
                Seq::empty(),
                None,
            )
        } else {
            split_args_from(s, i + 1, args, cur.push(ch), quote)
        }
    }
}

/// Splits an argument line into words, honouring quotes.
pub fn split_args(input: &str) -> (r: Result<Vec<String>, String>)
    ensures
        match split_args_from(input@, 0, Seq::empty(), Seq::empty(), None) {
            Ok(ws) => r matches Ok(v) && text::views(v@) == ws,
            Err(e) => r matches Err(m) && m@ == e,
        },
{
    let v = text::chars_of(input);
    let mut args: Vec<String> = Vec::new();
    let mut cur = String::new();
    let mut quote: Option<char> = None;
    let mut i: usize = 0;
    proof {
        assert(text::views(args@) =~= Seq::<Seq<char>>::empty());
        assert(cur@ =~= Seq::<char>::empty());
    }
    while i < v.len()
        invariant
            v@ == input@,
            0 <= i <= v@.len(),
            split_args_from(input@, 0, Seq::empty(), Seq::empty(), None) == split_args_from(
                input@,
                i as int,
                text::views(args@),
                cur@,
                quote,
            ),
        decreases v.len() - i,
    {
        let ch = v[i];
        let ghost before = text::views(args@);
        if (ch == '"' || ch == '\'') && quote.is_none() {
            quote = Some(ch);
            i = i + 1;
        } else if quote == Some(ch) {
            quote = None;
            i = i + 1;
        } else if ch == '\\' && quote == Some('"') {
            if i + 1 < v.len() {
                text::push_char(&mut cur, v[i + 1]);
                i = i + 2;
            } else {
                text::push_char(&mut cur, '\\');
                i = i + 1;
            }
        } else if text::char_is_ws(ch) && quote.is_none() {
            if !cur.as_str().is_empty() {
                let word = cur;
                args.push(word);
                cur = String::new();
                proof {
                    assert(text::views(args@) =~= before.push(word@));
                }
            } else {
                proof {
                    assert(cur@ =~= Seq::<char>::empty());
                }
            }
            i = i + 1;
        } else {
            text::push_char(&mut cur, ch);
            i = i + 1;
        }
    }
    match quote {
        Some(q) => {
            let mut m = text::to_owned("unclosed quote ");
            text::push_char(&mut m, q);
            text::push_str(&mut m, " in arguments");
            Err(m)
        },
        None => {
            if !cur.as_str().is_empty() {
                let ghost before = text::views(args@);
                args.push(cur);
                proof {
                    assert(text::views(args@) =~= before.push(cur@));
                }
            }
            Ok(args)
        },
    }
}

/// The `KEY=VALUE` overrides of a `;`-separated list, trimmed, blanks left out.
pub open spec fn env_overrides(s: Seq<char>) -> Seq<Seq<char>> {
    text::split(s, ';').map_values(|p: Seq<char>| text::trim(p)).filter(|p: Seq<char>| p.len() > 0)
}

/// Reads the `;`-separated environment overrides.
pub fn parse_env_overrides(input: &str) -> (r: Vec<String>)
    ensures
        text::views(r@) == env_overrides(input@),
{
    let parts = text::split_char(input, ';');
    let ghost ps = text::views(parts@);
    let ghost trimmed = ps.map_values(|p: Seq<char>| text::trim(p));
    let mut out: Vec<String> = Vec::new();
    let mut i: usize = 0;
    proof {
        assert(trimmed.take(0) =~= Seq::<Seq<char>>::empty());
        assert(trimmed.take(0).filter(|p: Seq<char>| p.len() > 0) =~= Seq::<Seq<char>>::empty());
    }
    while i < parts.len()
        invariant
            0 <= i <= parts@.len(),
            ps == text::views(parts@),
            trimmed == ps.map_values(|p: Seq<char>| text::trim(p)),
            text::views(out@) == trimmed.take(i as int).filter(|p: Seq<char>| p.len() > 0),
        decreases parts.len() - i,
    {
        let t = text::trim_str(parts[i].as_str());
        let ghost before = text::views(out@);
        proof {
            assert(trimmed.take(i + 1) =~= trimmed.take(i as int).push(trimmed[i as int]));
            trimmed.take(i as int).lemma_filter_push(trimmed[i as int], |p: Seq<char>| p.len() > 0);
            assert(trimmed[i as int] == t@);
        }
        if !t.as_str().is_empty() {
            out.push(t);
            proof {
                assert(text::views(out@) =~= before.push(t@));
            }
        }
        i = i + 1;
    }
    proof {
        assert(trimmed.take(parts@.len() as int) =~= trimmed);
    }
    out
}

/// Whether all values have, at position `i`, a character equal in any letter case to
/// the first value's.
pub open spec fn all_agree_at(values: Seq<Seq<char>>, i: int) -> bool {
    forall|j: int|
        0 <= j < values.len() ==> i < (#[trigger] values[j]).len() && text::lower_char(values[j][i])
            == text::lower_char(values[0][i])
}

/// The longest start that all values share, in any letter case, as the first value
/// writes it; empty without values.
pub fn common_prefix(values: &[String]) -> (r: String)
    ensures
        values@.len() == 0 ==> r@.len() == 0,
        values@.len() > 0 ==> {
            let first = values@[0]@;
            let vs = text::views(values@);
            &&& r@.len() <= first.len()
            &&& r@ == first.take(r@.len() as int)
            &&& forall|i: int| 0 <= i < r@.len() ==> all_agree_at(vs, i)
            &&& (r@.len() == first.len() || !all_agree_at(vs, r@.len() as int))
        },
{
    if values.len() == 0 {
        return String::new();
    }
    let ghost vs = text::views(values@);
    let first = text::chars_of(values[0].as_str());
    let mut others: Vec<Vec<char>> = Vec::new();
    let mut j: usize = 0;
    while j < values.len()
        invariant
            0 <= j <= values@.len(),
            others@.len() == j,
            forall|k: int| 0 <= k < j ==> (#[trigger] others@[k])@ == values@[k]@,
        decreases values.len() - j,
    {
        others.push(text::chars_of(values[j].as_str()));
        j = j + 1;
    }
    let mut out = String::new();
    let mut i: usize = 0;
    while i < first.len()
        invariant
            values@.len() > 0,
            0 <= i <= first@.len(),
            first@ == values@[0]@,
            vs == text::views(values@),
            others@.len() == values@.len(),
            forall|k: int| 0 <= k < values@.len() ==> (#[trigger] others@[k])@ == values@[k]@,
            out@ == first@.take(i as int),
            forall|p: int| 0 <= p < i ==> all_agree_at(vs, p),
        decreases first.len() - i,
    {
        let ch = first[i];
        let mut agree = true;
        let mut k: usize = 0;
        while k < others.len()
            invariant
                0 <= k <= others@.len(),
                others@.len() == values@.len(),
                forall|q: int| 0 <= q < values@.len() ==> (#[trigger] others@[q])@ == values@[q]@,
                vs == text::views(values@),
                i < first@.len(),
                values@.len() > 0,
                first@ == values@[0]@,
                ch == first@[i as int],
                agree == forall|q: int|
                    0 <= q < k ==> i < (#[trigger] vs[q]).len() && text::lower_char(vs[q][i as int])
                        == text::lower_char(ch),
            decreases others.len() - k,
        {
            let ok = i < others[k].len() && text::char_lower(others[k][i]) == text::char_lower(ch);
            proof {
                assert(vs[k as int] == others@[k as int]@);
            }
            if !ok {
                agree = false;
            }
            k = k + 1;
        }
        proof {
            assert(vs[0] == first@);
        }
        if !agree {
            return out;
        }
        text::push_char(&mut out, ch);
        proof {
            assert(first@.take(i + 1) =~= first@.take(i as int).push(ch));
        }
        i = i + 1;
    }
    proof {
        assert(first@.take(first@.len() as int) =~= first@);
    }
    out
}

/// A path as typed, with surrounding quotes taken off, and whether it started with a
/// quote.
pub fn strip_optional_quote(input: &str) -> (r: (String, bool))
    ensures
        r.0@ == text::trim_char(input@, '"'),
        r.1 == (input@.len() > 0 && input@[0] == '"'),
{
    let v = text::chars_of(input);
    let quoted = v.len() > 0 && v[0] == '"';
    (text::trim_char_str(input, '"'), quoted)
}

/// A path as typed: trimmed, surrounding quotes taken off.
pub open spec fn normalized_path_text(input: Seq<char>) -> Seq<char> {
    text::trim_char(text::trim(input), '"')
}

/// A path as typed: trimmed, surrounding quotes taken off.
pub fn normalize_path(input: &str) -> (r: String)
    ensures
        r@ == normalized_path_text(input@),
{
    let t = text::trim_str(input);
    text::trim_char_str(t.as_str(), '"')
}

/// A typed path, or nothing when the input is blank.
pub fn optional_path(input: &str) -> (r: Option<String>)
    ensures
        text::trim(input@).len() == 0 ==> r is None,
        text::trim(input@).len() > 0 ==> (r matches Some(p) && p@ == normalized_path_text(input@)),
{
    let t = text::trim_str(input);
    if t.as_str().is_empty() {
        None
    } else {
        Some(normalize_path(input))
    }
}

/// Each `'` doubled, as a PowerShell single-quoted literal writes it.
pub open spec fn double_quotes(s: Seq<char>) -> Seq<char>
    decreases s.len(),
{
    if s.len() == 0 {
        Seq::empty()
    } else {
        double_quotes(s.drop_last()) + if s.last() == '\'' {
            "''"@
        } else {
            seq![s.last()]
        }
    }
}

/// A value as a PowerShell single-quoted literal.
pub fn powershell_single_quoted_literal(value: &str) -> (r: String)
    ensures
        r@ == "'"@ + double_quotes(value@) + "'"@,
{
    let v = text::chars_of(value);
    let mut out = text::to_owned("'");
    let mut i: usize = 0;
    proof {
        reveal_strlit("'");
        assert(v@.take(0) =~= Seq::<char>::empty());
    }
    while i < v.len()
        invariant
            v@ == value@,
            0 <= i <= v@.len(),
            out@ == "'"@ + double_quotes(v@.take(i as int)),
        decreases v.len() - i,
    {
        if v[i] == '\'' {
            text::push_str(&mut out, "''");
        } else {
            text::push_char(&mut out, v[i]);
        }
        proof {
            reveal_strlit("''");
            assert(v@.take(i + 1).drop_last() =~= v@.take(i as int));
        }
        i = i + 1;
    }
    text::push_str(&mut out, "'");
    proof {
        assert(v@.take(v@.len() as int) =~= v@);
    }
    out
}


// ---------------------------------------------------------------------------
// Launchable files of a folder
// ---------------------------------------------------------------------------

/// The kinds of launchable files, in the order their columns are shown. On this
/// platform every file is launchable and of kind `file`.
pub open spec fn launch_formats() -> Seq<Seq<char>> {
    seq!["file"@]
}

/// The kinds of launchable files, in the order their columns are shown.
pub fn launch_format_list() -> (r: Vec<&'static str>)
    ensures
        r@.map_values(|k: &'static str| k@) == launch_formats(),
{
    let mut r: Vec<&'static str> = Vec::new();
    r.push("file");
    proof {
        assert(r@.map_values(|k: &'static str| k@) =~= launch_formats());
    }
    r
}

/// The title of a column of launchable files.
pub open spec fn launch_group_title_of(kind: Seq<char>) -> Seq<char> {
    if kind == "file"@ {
        "files"@
    } else {
        "."@ + kind
    }
}

/// The title of a column of launchable files: `files`, or `.ext`.
pub fn launch_group_title(kind: &str) -> (r: String)
    ensures
        r@ == launch_group_title_of(kind@),
{
    if text::str_eq(kind, "file") {
        text::to_owned("files")
    } else {
        let mut r = text::to_owned(".");
        text::push_str(&mut r, kind);
        r
    }
}

/// The kinds of launchable files, as their column titles joined with commas.
pub fn supported_launch_formats_label() -> (r: String)
    ensures
        r@ == text::join(launch_formats().map_values(|k: Seq<char>| launch_group_title_of(k)), ", "@),
{
    let kinds = launch_format_list();
    let mut titles: Vec<String> = Vec::new();
    let mut i: usize = 0;
    let ghost ks = kinds@.map_values(|k: &'static str| k@);
    while i < kinds.len()
        invariant
            0 <= i <= kinds@.len(),
            ks == kinds@.map_values(|k: &'static str| k@),
            ks == launch_formats(),
            text::views(titles@) =~= ks.take(i as int).map_values(|k: Seq<char>| launch_group_title_of(k)),
        decreases kinds.len() - i,
    {
        let t = launch_group_title(kinds[i]);
        let ghost before = text::views(titles@);
        titles.push(t);
        proof {
            assert(text::views(titles@) =~= before.push(t@));
            assert(ks.take(i + 1) =~= ks.take(i as int).push(ks[i as int]));
        }
        i = i + 1;
    }
    proof {
        assert(ks.take(kinds@.len() as int) =~= ks);
    }
    text::join_strings(&titles, ", ")
}

/// Where a kind's column comes: its place in the list of kinds, or last.
pub fn launch_format_order(kind: &str) -> (r: usize)
    ensures
        r == (if kind@ == "file"@ {
            0
        } else {
            usize::MAX
        }),
{
    if text::str_eq(kind, "file") {
        0
    } else {
        usize::MAX
    }
}

/// A launchable file as it is sorted: its path, its kind and its name.
pub type LaunchEntry = (Seq<char>, Seq<char>, Seq<char>);

/// Where a kind's column comes, as `launch_format_order` gives it.
pub open spec fn launch_order_of(kind: Seq<char>) -> int {
    if kind == "file"@ {
        0
    } else {
        usize::MAX as int
    }
}

/// Whether `a` is listed before `b`: by the column of its kind, then by its
/// lower-cased name.
pub open spec fn entry_precedes(a: LaunchEntry, b: LaunchEntry) -> bool {
    launch_order_of(a.1) < launch_order_of(b.1) || (launch_order_of(a.1) == launch_order_of(b.1) && text::seq_lt(
        text::lower(a.2),
        text::lower(b.2),
    ))
}

/// Inserts `x` after the entries that it does not precede.
pub open spec fn insert_entry(s: Seq<LaunchEntry>, x: LaunchEntry) -> Seq<LaunchEntry>
    decreases s.len(),
{
    if s.len() == 0 {
        seq![x]
    } else if entry_precedes(x, s[0]) {
        seq![x] + s
    } else {
        seq![s[0]] + insert_entry(s.drop_first(), x)
    }
}

/// The entries in listing order; entries that tie keep their order.
pub open spec fn sorted_entries(s: Seq<LaunchEntry>) -> Seq<LaunchEntry>
    decreases s.len(),
{
    if s.len() == 0 {
        Seq::empty()
    } else {
        insert_entry(sorted_entries(s.drop_last()), s.last())
    }
}

/// No entry comes after one that it precedes.
pub open spec fn entries_in_order(s: Seq<LaunchEntry>) -> bool {
    forall|i: int, j: int| 0 <= i < j < s.len() ==> !entry_precedes(#[trigger] s[j], #[trigger] s[i])
}

proof fn lemma_entry_precedes_irreflexive(a: LaunchEntry)
    ensures
        !entry_precedes(a, a),
{
    text::lemma_lt_irrefl(text::lower(a.2));
}

proof fn lemma_entry_precedes_transitive(a: LaunchEntry, b: LaunchEntry, c: LaunchEntry)
    requires
        entry_precedes(a, b),
        entry_precedes(b, c),
    ensures
        entry_precedes(a, c),
{
    if launch_order_of(a.1) == launch_order_of(b.1) && launch_order_of(b.1) == launch_order_of(c.1) {
        text::lemma_lt_trans(text::lower(a.2), text::lower(b.2), text::lower(c.2));
    }
}

proof fn lemma_insert_entry(s: Seq<LaunchEntry>, x: LaunchEntry) -> (k: int)
    requires
        entries_in_order(s),
    ensures
        0 <= k <= s.len(),
        insert_entry(s, x) == s.insert(k, x),
        entries_in_order(insert_entry(s, x)),
    decreases s.len(),
{
    if s.len() == 0 {
        assert(seq![x] =~= s.insert(0, x));
        0
    } else if entry_precedes(x, s[0]) {
        let r = seq![x] + s;
        assert(r =~= s.insert(0, x));
        assert forall|i: int, j: int| 0 <= i < j < r.len() implies !entry_precedes(#[trigger] r[j], #[trigger] r[i]) by {
            if i == 0 {
                if entry_precedes(r[j], x) {
                    lemma_entry_precedes_transitive(r[j], x, s[0]);
                    if j == 1 {
                        lemma_entry_precedes_irreflexive(s[0]);
                    } else {
                        assert(r[j] == s[j - 1]);
                        assert(!entry_precedes(s[j - 1], s[0]));
                    }
                }
            } else {
                assert(r[i] == s[i - 1] && r[j] == s[j - 1]);
            }
        }
        0
    } else {
        let rest = s.drop_first();
        assert forall|i: int, j: int| 0 <= i < j < rest.len() implies !entry_precedes(#[trigger] rest[j], #[trigger] rest[i]) by {
            assert(rest[i] == s[i + 1] && rest[j] == s[j + 1]);
        }
        let k = lemma_insert_entry(rest, x);
        let t = insert_entry(rest, x);
        let r = seq![s[0]] + t;
        assert(r =~= s.insert(k + 1, x));
        assert forall|i: int, j: int| 0 <= i < j < r.len() implies !entry_precedes(#[trigger] r[j], #[trigger] r[i]) by {
            if i == 0 {
                assert(r[0] == s[0]);
                assert(r[j] == t[j - 1]);
                if j - 1 < k {
                    assert(t[j - 1] == rest[j - 1]);
                    assert(rest[j - 1] == s[j]);
                } else if j - 1 == k {
                    assert(t[j - 1] == x);
                } else {
                    assert(t[j - 1] == rest[j - 2]);
                    assert(rest[j - 2] == s[j - 1]);
                }
            } else {
                assert(r[i] == t[i - 1] && r[j] == t[j - 1]);
            }
        }
        k + 1
    }
}

/// Sorting lists the files in order and loses or adds none: no file comes after one
/// that it precedes, and the same files come out as went in.
pub proof fn lemma_sorted_entries_ordered(s: Seq<LaunchEntry>)
    ensures
        entries_in_order(sorted_entries(s)),
        sorted_entries(s).to_multiset() == s.to_multiset(),
    decreases s.len(),
{
    broadcast use vstd::seq_lib::group_to_multiset_ensures;
    if s.len() == 0 {
    } else {
        lemma_sorted_entries_ordered(s.drop_last());
        let k = lemma_insert_entry(sorted_entries(s.drop_last()), s.last());
        vstd::seq_lib::to_multiset_insert(sorted_entries(s.drop_last()), k, s.last());
        assert(s.drop_last().push(s.last()) =~= s);
    }
}

/// The launchable files with the names they are listed under.
pub open spec fn entries_of(options: Seq<LaunchOption>, names: Seq<String>) -> Seq<LaunchEntry> {
    Seq::new(options.len(), |i: int| (options[i].path@, options[i].kind@, names[i]@))
}

/// A launchable file without its name.
pub open spec fn entry_option(e: LaunchEntry) -> (Seq<char>, Seq<char>) {
    (e.0, e.1)
}

/// The model of a launchable file: its path and its kind.
pub open spec fn option_view(o: LaunchOption) -> (Seq<char>, Seq<char>) {
    (o.path@, o.kind@)
}

fn copy_option(o: &LaunchOption) -> (r: LaunchOption)
    ensures
        r.path@ == o.path@,
        r.kind@ == o.kind@,
{
    LaunchOption { path: o.path.clone(), kind: o.kind }
}

fn insert_option(opts: &mut Vec<LaunchOption>, names: &mut Vec<String>, o: LaunchOption, n: String)
    requires
        old(opts)@.len() == old(names)@.len(),
    ensures
        final(opts)@.len() == final(names)@.len(),
        entries_of(final(opts)@, final(names)@) == insert_entry(
            entries_of(old(opts)@, old(names)@),
            (o.path@, o.kind@, n@),
        ),
{
    let ghost s = entries_of(opts@, names@);
    let ghost x: LaunchEntry = (o.path@, o.kind@, n@);
    let order = launch_format_order(o.kind);
    let key = text::to_lower(n.as_str());
    let mut p: usize = 0;
    assert(s.take(0) + insert_entry(s.skip(0), x) =~= insert_entry(s, x)) by {
        assert(s.skip(0) =~= s);
    }
    while p < opts.len()
        invariant_except_break
            0 <= p <= opts@.len(),
            opts@ == old(opts)@,
            names@ == old(names)@,
            opts@.len() == names@.len(),
            s == entries_of(opts@, names@),
            order == launch_order_of(x.1),
            key@ == text::lower(x.2),
            s.take(p as int) + insert_entry(s.skip(p as int), x) == insert_entry(s, x),
        ensures
            0 <= p <= opts@.len(),
            opts@ == old(opts)@,
            names@ == old(names)@,
            opts@.len() == names@.len(),
            s == entries_of(opts@, names@),
            s.take(p as int) + insert_entry(s.skip(p as int), x) == insert_entry(s, x),
            p < opts@.len() ==> entry_precedes(x, s[p as int]),
        decreases opts.len() - p,
    {
        let other_order = launch_format_order(opts[p].kind);
        let other = text::to_lower(names[p].as_str());
        let ghost rest = s.skip(p as int);
        proof {
            assert(rest[0] == s[p as int]);
        }
        if order < other_order || (order == other_order && text::str_lt(key.as_str(), other.as_str())) {
            break;
        }
        proof {
            assert(rest.drop_first() =~= s.skip(p + 1));
            assert(s.take(p + 1) =~= s.take(p as int).push(rest[0]));
            assert(s.take(p as int) + (seq![rest[0]] + insert_entry(rest.drop_first(), x)) =~= s.take(p + 1)
                + insert_entry(s.skip(p + 1), x));
        }
        p = p + 1;
    }
    opts.insert(p, o);
    names.insert(p, n);
    proof {
        if p < s.len() {
            assert(s.skip(p as int)[0] == s[p as int]);
        } else {
            assert(s.skip(p as int) =~= Seq::<LaunchEntry>::empty());
        }
        assert(entries_of(opts@, names@) =~= s.take(p as int) + (seq![x] + s.skip(p as int)));
    }
}

/// Sorts launchable files, listed under the given names, by the column of their
/// kind and then by lower-cased name; ties keep their order.
pub fn sort_launch_options_given(options: &Vec<LaunchOption>, names: &Vec<String>) -> (r: Vec<LaunchOption>)
    requires
        options@.len() == names@.len(),
    ensures
        r@.map_values(|o: LaunchOption| option_view(o)) == sorted_entries(entries_of(options@, names@)).map_values(
            |e: LaunchEntry| entry_option(e),
        ),
{
    let ghost s = entries_of(options@, names@);
    let mut out: Vec<LaunchOption> = Vec::new();
    let mut out_names: Vec<String> = Vec::new();
    let mut i: usize = 0;
    while i < options.len()
        invariant
            0 <= i <= options@.len(),
            options@.len() == names@.len(),
            s == entries_of(options@, names@),
            out@.len() == out_names@.len(),
            entries_of(out@, out_names@) == sorted_entries(s.take(i as int)),
        decreases options.len() - i,
    {
        let o = copy_option(&options[i]);
        let n = names[i].clone();
        proof {
            assert(s.take(i + 1).drop_last() =~= s.take(i as int));
            assert(s.take(i + 1).last() == s[i as int]);
        }
        insert_option(&mut out, &mut out_names, o, n);
        i = i + 1;
    }
    proof {
        assert(s.take(options@.len() as int) =~= s);
        let e = entries_of(out@, out_names@);
        assert(out@.map_values(|o: LaunchOption| option_view(o)) =~= e.map_values(|x: LaunchEntry| entry_option(x)));
    }
    out
}

/// Sorts launchable files by the column of their kind and then by the lower-cased
/// name they are listed under; ties keep their order.
pub fn sort_launch_options(options: &Vec<LaunchOption>) -> (r: Vec<LaunchOption>)
    ensures
        exists|names: Seq<String>|
            names_fit(options@, text::views(names)) && r@.map_values(|o: LaunchOption| option_view(o)) == sorted_entries(
                entries_of(options@, names),
            ).map_values(|e: LaunchEntry| entry_option(e)),
{
    let mut names: Vec<String> = Vec::new();
    let mut i: usize = 0;
    while i < options.len()
        invariant
            0 <= i <= options@.len(),
            names@.len() == i,
            forall|j: int|
                0 <= j < i ==> (known_file_name(#[trigger] options@[j].path@) matches Some(k) ==> names@[j]@ == k),
        decreases options.len() - i,
    {
        let name = launch_option_name(&options[i]);
        names.push(name);
        i = i + 1;
    }
    assert(names_fit(options@, text::views(names@)));
    sort_launch_options_given(options, &names)
}

/// The name a file is listed under, given what `Path::file_name` gave for its path:
/// that name, or the whole path when there is none.
pub open spec fn listed_name(path: Seq<char>, file_name: Option<Seq<char>>) -> Seq<char> {
    match file_name {
        Some(n) => n,
        None => path,
    }
}

/// Whether `names` can be the names the files are listed under: one for each file,
/// and, where every platform agrees on a file's name, that name.
pub open spec fn names_fit(options: Seq<LaunchOption>, names: Seq<Seq<char>>) -> bool {
    &&& names.len() == options.len()
    &&& forall|i: int|
        0 <= i < options.len() ==> (known_file_name(#[trigger] options[i].path@) matches Some(k) ==> names[i] == k)
}

/// The name a launchable file is listed under: its file name, or its whole path when
/// it has none.
fn launch_option_name(option: &LaunchOption) -> (r: String)
    ensures
        exists|n: Option<Seq<char>>| name_fits(option.path@, n) && r@ == #[trigger] listed_name(option.path@, n),
{
    let n = file_name_of(option.path.as_str());
    let ghost nv = crate::capture::model::opt_view(n);
    let r = match n {
        Some(x) => x,
        None => option.path.clone(),
    };
    assert(r@ == listed_name(option.path@, nv));
    r
}

/// Whether a file's name matches the filter, in any letter case.
pub open spec fn name_matches_filter(name: Seq<char>, filter: Seq<char>) -> bool {
    text::lower(filter).len() == 0 || text::contains(text::lower(name), text::lower(filter))
}

/// The indices of the files whose names match the filter, in order.
pub open spec fn filtered_indices(names: Seq<Seq<char>>, filter: Seq<char>) -> Seq<usize>
    decreases names.len(),
{
    if names.len() == 0 {
        Seq::empty()
    } else {
        filtered_indices(names.drop_last(), filter) + if name_matches_filter(names.last(), filter) {
            seq![(names.len() - 1) as usize]
        } else {
            Seq::empty()
        }
    }
}

/// The indices of the files whose names, as given, match the filter.
pub fn filtered_launch_indices_given(names: &Vec<String>, filter: &str) -> (r: Vec<usize>)
    ensures
        r@ == filtered_indices(text::views(names@), filter@),
{
    let needle = text::to_lower(filter);
    let ghost ns = text::views(names@);
    let mut r: Vec<usize> = Vec::new();
    let mut i: usize = 0;
    proof {
        assert(ns.take(0) =~= Seq::<Seq<char>>::empty());
    }
    while i < names.len()
        invariant
            0 <= i <= names@.len(),
            ns == text::views(names@),
            needle@ == text::lower(filter@),
            r@ == filtered_indices(ns.take(i as int), filter@),
        decreases names.len() - i,
    {
        let lower_name = text::to_lower(names[i].as_str());
        let keep = needle.as_str().is_empty() || text::contains_str(lower_name.as_str(), needle.as_str());
        proof {
            assert(ns.take(i + 1).drop_last() =~= ns.take(i as int));
            assert(ns[i as int] == names@[i as int]@);
        }
        if keep {
            r.push(i);
        }
        i = i + 1;
    }
    proof {
        assert(ns.take(names@.len() as int) =~= ns);
    }
    r
}

/// The indices of the launchable files whose names match the filter.
pub fn filtered_launch_indices(state: &LauncherState) -> (r: Vec<usize>)
    ensures
        exists|names: Seq<Seq<char>>|
            names_fit(state.launch_options@, names) && r@ == filtered_indices(names, state.launch_filter@),
{
    let names = launch_option_names(state);
    let r = filtered_launch_indices_given(&names, state.launch_filter.as_str());
    assert(text::views(names@).len() == names@.len());
    r
}

/// The launchable files of one kind, by their place in the filtered list.
#[derive(Debug)]
pub struct LaunchGroupIndices {
    pub kind: &'static str,
    pub indices: Vec<usize>,
}

/// The places in the filtered list whose files are of `kind`.
pub open spec fn places_of_kind(kinds: Seq<Seq<char>>, filtered: Seq<usize>, kind: Seq<char>) -> Seq<usize>
    decreases filtered.len(),
{
    if filtered.len() == 0 {
        Seq::empty()
    } else {
        places_of_kind(kinds, filtered.drop_last(), kind) + if kinds[filtered.last() as int] == kind {
            seq![(filtered.len() - 1) as usize]
        } else {
            Seq::empty()
        }
    }
}

/// The kinds, in the order of `formats`, that have files in the filtered list.
pub open spec fn column_kinds(kinds: Seq<Seq<char>>, filtered: Seq<usize>, formats: Seq<Seq<char>>) -> Seq<Seq<char>>
    decreases formats.len(),
{
    if formats.len() == 0 {
        Seq::empty()
    } else {
        column_kinds(kinds, filtered, formats.drop_last()) + if places_of_kind(kinds, filtered, formats.last()).len() > 0 {
            seq![formats.last()]
        } else {
            Seq::empty()
        }
    }
}

/// The columns of the file list: for each kind with files in the filtered list, the
/// places of its files.
pub open spec fn launch_columns(kinds: Seq<Seq<char>>, filtered: Seq<usize>) -> Seq<Seq<usize>> {
    column_kinds(kinds, filtered, launch_formats()).map_values(|k: Seq<char>| places_of_kind(kinds, filtered, k))
}

/// The columns of launchable files: for each kind with files in the filtered list,
/// in the order of kinds, the places of its files.
pub fn launch_group_indices(state: &LauncherState, filtered: &[usize]) -> (r: Vec<LaunchGroupIndices>)
    requires
        forall|i: int| 0 <= i < filtered@.len() ==> filtered@[i] < state.launch_options@.len(),
    ensures
        r@.len() <= launch_formats().len(),
        r@.map_values(|g: LaunchGroupIndices| g.kind@) == column_kinds(
            state.launch_options@.map_values(|o: LaunchOption| o.kind@),
            filtered@,
            launch_formats(),
        ),
        r@.map_values(|g: LaunchGroupIndices| g.indices@) == launch_columns(
            state.launch_options@.map_values(|o: LaunchOption| o.kind@),
            filtered@,
        ),
        forall|g: int|
            0 <= g < r@.len() ==> (#[trigger] r@[g]).indices@ == places_of_kind(
                state.launch_options@.map_values(|o: LaunchOption| o.kind@),
                filtered@,
                r@[g].kind@,
            ) && r@[g].indices@.len() > 0 && launch_formats().contains(r@[g].kind@),
{
    let ghost kinds = state.launch_options@.map_values(|o: LaunchOption| o.kind@);
    let formats = launch_format_list();
    let mut groups: Vec<LaunchGroupIndices> = Vec::new();
    let mut f: usize = 0;
    while f < formats.len()
        invariant
            0 <= f <= formats@.len(),
            formats@.map_values(|k: &'static str| k@) == launch_formats(),
            kinds == state.launch_options@.map_values(|o: LaunchOption| o.kind@),
            forall|i: int| 0 <= i < filtered@.len() ==> filtered@[i] < state.launch_options@.len(),
            groups@.len() <= f,
            groups@.map_values(|g: LaunchGroupIndices| g.kind@) == column_kinds(
                kinds,
                filtered@,
                launch_formats().take(f as int),
            ),
            forall|g: int|
                0 <= g < groups@.len() ==> (#[trigger] groups@[g]).indices@ == places_of_kind(
                    kinds,
                    filtered@,
                    groups@[g].kind@,
                ) && groups@[g].indices@.len() > 0 && launch_formats().contains(groups@[g].kind@),
        decreases formats.len() - f,
    {
        let kind = formats[f];
        let mut indices: Vec<usize> = Vec::new();
        let mut i: usize = 0;
        proof {
            assert(filtered@.take(0) =~= Seq::<usize>::empty());
        }
        while i < filtered.len()
            invariant
                0 <= i <= filtered@.len(),
                kinds == state.launch_options@.map_values(|o: LaunchOption| o.kind@),
                forall|q: int| 0 <= q < filtered@.len() ==> filtered@[q] < state.launch_options@.len(),
                indices@ == places_of_kind(kinds, filtered@.take(i as int), kind@),
            decreases filtered.len() - i,
        {
            let same = text::str_eq(state.launch_options[filtered[i]].kind, kind);
            proof {
                assert(filtered@.take(i + 1).drop_last() =~= filtered@.take(i as int));
                assert(kinds[filtered@[i as int] as int] == state.launch_options@[filtered@[i as int] as int].kind@);
            }
            if same {
                indices.push(i);
            }
            i = i + 1;
        }
        proof {
            assert(filtered@.take(filtered@.len() as int) =~= filtered@);
            assert(launch_formats()[f as int] == kind@);
            assert(launch_formats().take(f + 1).drop_last() =~= launch_formats().take(f as int));
            assert(launch_formats().take(f + 1).last() == kind@);
        }
        let ghost before = groups@;
        if indices.len() > 0 {
            groups.push(LaunchGroupIndices { kind, indices });
            proof {
                assert(groups@.map_values(|g: LaunchGroupIndices| g.kind@) =~= before.map_values(
                    |g: LaunchGroupIndices| g.kind@,
                ).push(kind@));
            }
        }
        f = f + 1;
    }
    proof {
        assert(launch_formats().take(formats@.len() as int) =~= launch_formats());
        let ks = groups@.map_values(|g: LaunchGroupIndices| g.kind@);
        assert(groups@.map_values(|g: LaunchGroupIndices| g.indices@) =~= launch_columns(kinds, filtered@)) by {
            assert forall|g: int| 0 <= g < groups@.len() implies groups@.map_values(
                |x: LaunchGroupIndices| x.indices@,
            )[g] == launch_columns(kinds, filtered@)[g] by {
                assert(ks[g] == groups@[g].kind@);
                let _ = groups@[g];
            }
        }
    }
    groups
}

/// The column and row of a place in the filtered list, if a column holds it.
pub fn launch_selection_position(groups: &[LaunchGroupIndices], selected: usize) -> (r: Option<(usize, usize)>)
    ensures
        match r {
            Some((g, row)) => g < groups@.len() && row < groups@[g as int].indices@.len()
                && groups@[g as int].indices@[row as int] == selected && (forall|h: int|
                0 <= h < g ==> !(#[trigger] groups@[h]).indices@.contains(selected)) && (forall|q: int|
                0 <= q < row ==> groups@[g as int].indices@[q] != selected),
            None => forall|h: int| 0 <= h < groups@.len() ==> !(#[trigger] groups@[h]).indices@.contains(selected),
        },
{
    let mut g: usize = 0;
    while g < groups.len()
        invariant
            0 <= g <= groups@.len(),
            forall|h: int| 0 <= h < g ==> !(#[trigger] groups@[h]).indices@.contains(selected),
        decreases groups.len() - g,
    {
        let mut row: usize = 0;
        while row < groups[g].indices.len()
            invariant
                g < groups@.len(),
                0 <= row <= groups@[g as int].indices@.len(),
                forall|h: int| 0 <= h < g ==> !(#[trigger] groups@[h]).indices@.contains(selected),
                forall|q: int| 0 <= q < row ==> groups@[g as int].indices@[q] != selected,
            decreases groups[g as int].indices@.len() - row,
        {
            if groups[g].indices[row] == selected {
                return Some((g, row));
            }
            row = row + 1;
        }
        proof {
            assert(!groups@[g as int].indices@.contains(selected)) by {
                if groups@[g as int].indices@.contains(selected) {
                    let q = choose|q: int| 0 <= q < groups@[g as int].indices@.len()
                        && groups@[g as int].indices@[q] == selected;
                    assert(groups@[g as int].indices@[q] != selected);
                }
            }
        }
        g = g + 1;
    }
    None
}

/// The names the launchable files are listed under, in order.
pub fn launch_option_names(state: &LauncherState) -> (r: Vec<String>)
    ensures
        r@.len() == state.launch_options@.len(),
        names_fit(state.launch_options@, text::views(r@)),
{
    let mut names: Vec<String> = Vec::new();
    let mut i: usize = 0;
    while i < state.launch_options.len()
        invariant
            0 <= i <= state.launch_options@.len(),
            names@.len() == i,
            forall|j: int|
                0 <= j < i ==> (known_file_name(#[trigger] state.launch_options@[j].path@) matches Some(k)
                    ==> names@[j]@ == k),
        decreases state.launch_options.len() - i,
    {
        let name = launch_option_name(&state.launch_options[i]);
        names.push(name);
        i = i + 1;
    }
    assert(names_fit(state.launch_options@, text::views(names@)));
    names
}

/// The selection kept within a filtered list of `n` files.
pub open spec fn clamped_selection(selected: usize, n: nat) -> usize {
    if n == 0 {
        0
    } else if selected >= n {
        (n - 1) as usize
    } else {
        selected
    }
}

/// Keeps the selected file within the list filtered by the given names.
pub fn clamp_launch_selection_given(state: &mut LauncherState, names: &Vec<String>)
    ensures
        final(state).launch_selected == clamped_selection(
            old(state).launch_selected,
            filtered_indices(text::views(names@), old(state).launch_filter@).len(),
        ),
        *final(state) == (LauncherState { launch_selected: final(state).launch_selected, ..*old(state) }),
{
    let n = filtered_launch_indices_given(names, state.launch_filter.as_str()).len();
    if n == 0 {
        state.launch_selected = 0;
    } else if state.launch_selected >= n {
        state.launch_selected = n - 1;
    }
}

/// Keeps the selected file within the filtered list.
pub fn clamp_launch_selection(state: &mut LauncherState)
    ensures
        exists|names: Seq<Seq<char>>|
            names_fit(old(state).launch_options@, names) && final(state).launch_selected == clamped_selection(
                old(state).launch_selected,
                filtered_indices(names, old(state).launch_filter@).len(),
            ),
        *final(state) == (LauncherState { launch_selected: final(state).launch_selected, ..*old(state) }),
{
    let names = launch_option_names(state);
    clamp_launch_selection_given(state, &names);
    assert(text::views(names@).len() == names@.len());
}

/// The message after the filter changed, for a filtered list of `count` files.
pub open spec fn filter_message_of(count: nat, filter: Seq<char>) -> Seq<char> {
    if filter.len() == 0 {
        text::decimal(count) + " launchable files."@
    } else {
        text::decimal(count) + " matches for '"@ + filter + "'."@
    }
}

/// The message after the filter changed, with the files listed under the given names.
pub fn launch_filter_message_given(state: &LauncherState, names: &Vec<String>) -> (r: String)
    ensures
        r@ == filter_message_of(filtered_indices(text::views(names@), state.launch_filter@).len(), state.launch_filter@),
{
    let count = filtered_launch_indices_given(names, state.launch_filter.as_str()).len();
    let mut r = String::new();
    text::push_decimal(&mut r, count as u64);
    if state.launch_filter.as_str().is_empty() {
        text::push_str(&mut r, " launchable files.");
    } else {
        text::push_str(&mut r, " matches for '");
        text::push_str(&mut r, state.launch_filter.as_str());
        text::push_str(&mut r, "'.");
    }
    r
}

/// The message after the filter changed: how many files there are, or how many match.
pub fn launch_filter_message(state: &LauncherState) -> (r: String)
    ensures
        exists|names: Seq<Seq<char>>|
            names_fit(state.launch_options@, names) && r@ == filter_message_of(
                filtered_indices(names, state.launch_filter@).len(),
                state.launch_filter@,
            ),
{
    let names = launch_option_names(state);
    let r = launch_filter_message_given(state, &names);
    assert(text::views(names@).len() == names@.len());
    r
}

/// Every place in the filtered list names a file of the list.
pub proof fn lemma_filtered_indices_bounded(names: Seq<Seq<char>>, filter: Seq<char>)
    requires
        names.len() <= usize::MAX,
    ensures
        forall|i: int|
            0 <= i < filtered_indices(names, filter).len() ==> #[trigger] filtered_indices(names, filter)[i]
                < names.len(),
    decreases names.len(),
{
    if names.len() > 0 {
        lemma_filtered_indices_bounded(names.drop_last(), filter);
        let prefix = filtered_indices(names.drop_last(), filter);
        assert forall|i: int| 0 <= i < filtered_indices(names, filter).len() implies #[trigger] filtered_indices(
            names,
            filter,
        )[i] < names.len() by {
            if i < prefix.len() {
                assert(filtered_indices(names, filter)[i] == prefix[i]);
            }
        }
    }
}

/// Column `g`, row `row` is the first place where `selected` appears.
pub open spec fn first_place(cols: Seq<Seq<usize>>, selected: usize, g: int, row: int) -> bool {
    &&& 0 <= g < cols.len()
    &&& 0 <= row < cols[g].len()
    &&& cols[g][row] == selected
    &&& forall|h: int| 0 <= h < g ==> !(#[trigger] cols[h]).contains(selected)
    &&& forall|q: int| 0 <= q < row ==> cols[g][q] != selected
}

proof fn lemma_first_place_unique(cols: Seq<Seq<usize>>, selected: usize, g: int, row: int, g2: int, row2: int)
    requires
        first_place(cols, selected, g, row),
        first_place(cols, selected, g2, row2),
    ensures
        g == g2 && row == row2,
{
    if g < g2 {
        assert(cols[g].contains(selected)) by {
            assert(cols[g][row] == selected);
        }
    } else if g2 < g {
        assert(cols[g2].contains(selected)) by {
            assert(cols[g2][row2] == selected);
        }
    }
}

/// Moving the selection in the file list, up or down a column (`vertical`) or to
/// the column on the left or right, towards the start when `back`: with no file
/// matching, the selection goes to 0 and the message says so; a selection that is
/// in no column goes to 0; at an edge only the message changes; otherwise the
/// selection moves and the message is cleared. Sideways, the row is kept as far as
/// the new column allows.
pub open spec fn launch_moved(
    a: LauncherState,
    b: LauncherState,
    filtered: Seq<usize>,
    cols: Seq<Seq<usize>>,
    vertical: bool,
    back: bool,
) -> bool {
    if filtered.len() == 0 {
        &&& b.message@ == "No launchable files match the filter."@
        &&& b == (LauncherState { message: b.message, launch_selected: 0, ..a })
    } else if !(exists|g: int, row: int| first_place(cols, a.launch_selected, g, row)) {
        b == (LauncherState { launch_selected: 0, ..a })
    } else {
        forall|g: int, row: int|
            first_place(cols, a.launch_selected, g, row) ==> (if vertical {
                launch_step_vertical(a, b, cols, g, row, back)
            } else {
                launch_step_horizontal(a, b, cols, g, row, back)
            })
    }
}

/// The selection moved to `place` and the message was cleared.
pub open spec fn launch_selected_at(a: LauncherState, b: LauncherState, place: usize) -> bool {
    &&& b.launch_selected == place
    &&& b.message@.len() == 0
    &&& b == (LauncherState { launch_selected: place, message: b.message, ..a })
}

/// One row up or down within column `g`.
pub open spec fn launch_step_vertical(
    a: LauncherState,
    b: LauncherState,
    cols: Seq<Seq<usize>>,
    g: int,
    row: int,
    back: bool,
) -> bool {
    let len = cols[g].len();
    let next = if back {
        if row > 0 { row - 1 } else { 0 }
    } else {
        if row + 1 < len { row + 1 } else { len - 1 }
    };
    if next == row {
        launcher_message(
            a,
            b,
            if back { "Already at the first file in this column."@ } else { "Already at the last file in this column."@ },
        )
    } else {
        launch_selected_at(a, b, cols[g][next])
    }
}

/// One column left or right, keeping the row as far as the column allows.
pub open spec fn launch_step_horizontal(
    a: LauncherState,
    b: LauncherState,
    cols: Seq<Seq<usize>>,
    g: int,
    row: int,
    back: bool,
) -> bool {
    let next = if back {
        if g > 0 { g - 1 } else { 0 }
    } else {
        if g + 1 < cols.len() { g + 1 } else { cols.len() - 1 }
    };
    if next == g {
        launcher_message(a, b, if back { "No file column to the left."@ } else { "No file column to the right."@ })
    } else {
        let target_row = if row < cols[next].len() { row } else { cols[next].len() - 1 };
        launch_selected_at(a, b, cols[next][target_row])
    }
}

/// The kinds of the launchable files.
pub open spec fn option_kinds(state: LauncherState) -> Seq<Seq<char>> {
    state.launch_options@.map_values(|o: LaunchOption| o.kind@)
}

/// The move in the file list, with the files listed under `names`.
pub open spec fn launch_moved_given(a: LauncherState, b: LauncherState, names: Seq<Seq<char>>, vertical: bool, direction: isize) -> bool {
    launch_moved(
        a,
        b,
        filtered_indices(names, a.launch_filter@),
        launch_columns(option_kinds(a), filtered_indices(names, a.launch_filter@)),
        vertical,
        direction < 0,
    )
}

fn move_launch_selection(state: &mut LauncherState, names: &Vec<String>, vertical: bool, direction: isize)
    requires
        names@.len() == old(state).launch_options@.len(),
    ensures
        launch_moved_given(*old(state), *final(state), text::views(names@), vertical, direction),
{
    let back = direction < 0;
    let ghost a = *state;
    let n_options = state.launch_options.len();
    let filtered = filtered_launch_indices_given(names, state.launch_filter.as_str());
    proof {
        lemma_filtered_indices_bounded(text::views(names@), a.launch_filter@);
    }
    if filtered.len() == 0 {
        state.message = text::to_owned("No launchable files match the filter.");
        state.launch_selected = 0;
        return;
    }
    let groups = launch_group_indices(state, filtered.as_slice());
    let ghost cols = groups@.map_values(|g: LaunchGroupIndices| g.indices@);
    assert(cols == launch_columns(option_kinds(a), filtered@));
    match launch_selection_position(groups.as_slice(), state.launch_selected) {
        None => {
            proof {
                assert forall|g: int, row: int| !first_place(cols, a.launch_selected, g, row) by {
                    if first_place(cols, a.launch_selected, g, row) {
                        assert(groups@[g].indices@ == cols[g]);
                        assert(cols[g].contains(a.launch_selected)) by {
                            assert(cols[g][row] == a.launch_selected);
                        }
                    }
                }
            }
            state.launch_selected = 0;
        },
        Some((g, row)) => {
            proof {
                assert forall|h: int| 0 <= h < g implies !(#[trigger] cols[h]).contains(a.launch_selected) by {
                    assert(groups@[h].indices@ == cols[h]);
                }
                assert(first_place(cols, a.launch_selected, g as int, row as int));
                assert forall|g2: int, row2: int|
                    first_place(cols, a.launch_selected, g2, row2) implies g2 == g && row2 == row by {
                    lemma_first_place_unique(cols, a.launch_selected, g as int, row as int, g2, row2);
                }
                assert(groups@[g as int].indices@ == cols[g as int]);
            }
            if vertical {
                let len = groups[g].indices.len();
                let next = if back {
                    if row > 0 { row - 1 } else { 0 }
                } else {
                    if row + 1 < len { row + 1 } else { len - 1 }
                };
                if next == row {
                    if back {
                        set_launcher_message(state, "Already at the first file in this column.");
                    } else {
                        set_launcher_message(state, "Already at the last file in this column.");
                    }
                } else {
                    state.launch_selected = groups[g].indices[next];
                    state.message = String::new();
                }
            } else {
                let next = if back {
                    if g > 0 { g - 1 } else { 0 }
                } else {
                    if g + 1 < groups.len() { g + 1 } else { groups.len() - 1 }
                };
                if next == g {
                    if back {
                        set_launcher_message(state, "No file column to the left.");
                    } else {
                        set_launcher_message(state, "No file column to the right.");
                    }
                } else {
                    proof {
                        assert(groups@[next as int].indices@ == cols[next as int]);
                        assert(groups@[next as int].indices@.len() > 0);
                    }
                    let n = groups[next].indices.len();
                    let target_row = if row < n { row } else { n - 1 };
                    state.launch_selected = groups[next].indices[target_row];
                    state.message = String::new();
                }
            }
        },
    }
}

/// Moves the selection up (`direction < 0`) or down its column of files.
pub fn move_launch_selection_vertical(state: &mut LauncherState, direction: isize)
    ensures
        exists|names: Seq<Seq<char>>|
            names_fit(old(state).launch_options@, names) && launch_moved_given(
                *old(state),
                *final(state),
                names,
                true,
                direction,
            ),
{
    let names = launch_option_names(state);
    move_launch_selection(state, &names, true, direction);
    assert(text::views(names@).len() == names@.len());
}

/// Moves the selection to the column of files on the left (`direction < 0`) or right.
pub fn move_launch_selection_horizontal(state: &mut LauncherState, direction: isize)
    ensures
        exists|names: Seq<Seq<char>>|
            names_fit(old(state).launch_options@, names) && launch_moved_given(
                *old(state),
                *final(state),
                names,
                false,
                direction,
            ),
{
    let names = launch_option_names(state);
    move_launch_selection(state, &names, false, direction);
    assert(text::views(names@).len() == names@.len());
}

/// The URL of an internet shortcut: the first `URL=` line, in any letter case, with
/// a byte-order mark and surrounding whitespace ignored, whose value is not empty.
pub open spec fn shortcut_url(lines: Seq<Seq<char>>) -> Option<Seq<char>>
    decreases lines.len(),
{
    if lines.len() == 0 {
        None
    } else {
        let line = text::trim_start_char(text::trim(lines[0]), '\u{feff}');
        let found = match text::split_once(line, '=') {
            Some((k, v)) => if text::eq_ignore_case(text::trim(k), "URL"@) && text::trim(v).len() > 0 {
                Some(text::trim(v))
            } else {
                None
            },
            None => None,
        };
        match found {
            Some(u) => Some(u),
            None => shortcut_url(lines.drop_first()),
        }
    }
}

/// The URL that an internet shortcut's text names: the trimmed value of the
/// first `URL=` line (the key compared without case) whose value is not empty.
pub fn parse_internet_shortcut_url(contents: &str) -> (r: Option<String>)
    ensures
        match shortcut_url(text::split(contents@, '\n')) {
            Some(u) => r matches Some(x) && x@ == u,
            None => r is None,
        },
{
    let lines = text::split_char(contents, '\n');
    let ghost all = text::split(contents@, '\n');
    let mut i: usize = 0;
    proof {
        assert(all.skip(0) =~= all);
    }
    while i < lines.len()
        invariant
            0 <= i <= lines@.len(),
            text::views(lines@) == all,
            all == text::split(contents@, '\n'),
            shortcut_url(all.skip(i as int)) == shortcut_url(all),
        decreases lines.len() - i,
    {
        let trimmed = text::trim_str(&lines[i]);
        let line = text::trim_start_char_str(&trimmed, '\u{feff}');
        let ghost rest = all.skip(i as int);
        proof {
            assert(rest[0] == lines@[i as int]@);
            assert(rest.drop_first() =~= all.skip(i + 1));
        }
        match text::split_once_char(&line, '=') {
            Some((key, value)) => {
                let k = text::trim_str(&key);
                let v = text::trim_str(&value);
                let vc = text::chars_of(&v);
                proof {
                    reveal_strlit("URL");
                }
                if text::eq_ignore_case_str(&k, "URL") && vc.len() > 0 {
                    return Some(v);
                }
            },
            None => {},
        }
        i = i + 1;
    }
    proof {
        assert(all.skip(i as int).len() == 0);
    }
    None
}

// ---------------------------------------------------------------------------
// Keys
// ---------------------------------------------------------------------------

/// What the caller does after a key, beyond the change to the launcher state.
#[derive(Debug, Clone, Copy, PartialEq, Eq, Structural)]
pub enum LauncherCommand {
    /// Nothing more.
    Stay,
    /// Leave the launcher: the launch is cancelled.
    Cancel,
    /// Start from the form (checks the program path on disk).
    Start,
    /// Launch the chosen file, now in `target`.
    Launch,
    /// Complete the path being edited in the field.
    Complete(Field),
    CheckCaStatus,
    CreateCa,
    InstallCaTrust,
    ShowCaPath,
    ShowCaFingerprint,
    /// Ask to confirm the removal of the CA files.
    BeginCaRemove,
    /// Remove the CA files; the confirmation is over.
    RemoveCa,
}

/// `String::pop` on a model.
pub open spec fn popped(s: Seq<char>) -> Seq<char> {
    if s.len() > 0 { s.drop_last() } else { s }
}

/// A key while a field is edited: Enter stores the buffer, Esc drops it, Backspace
/// and characters edit it, Tab asks for completion.
pub open spec fn editing_key_handled(a: LauncherState, b: LauncherState, f: Field, key: KeyCode, cmd: LauncherCommand) -> bool {
    match key {
        KeyCode::Enter => {
            &&& cmd == LauncherCommand::Stay
            &&& edit_applied(a, LauncherState { editing: a.editing, message: a.message, ..b }, f)
            &&& b.editing is None
            &&& b.message@ == "Value saved."@
        },
        KeyCode::Esc => {
            &&& cmd == LauncherCommand::Stay
            &&& b.message@ == "Edit cancelled."@
            &&& b == (LauncherState { editing: None, message: b.message, ..a })
        },
        KeyCode::Backspace => {
            &&& cmd == LauncherCommand::Stay
            &&& b.edit_buffer@ == popped(a.edit_buffer@)
            &&& b == (LauncherState { edit_buffer: b.edit_buffer, ..a })
        },
        KeyCode::Tab => cmd == LauncherCommand::Complete(f) && b == a,
        KeyCode::Char(c) => {
            &&& cmd == LauncherCommand::Stay
            &&& b.edit_buffer@ == a.edit_buffer@.push(c)
            &&& b == (LauncherState { edit_buffer: b.edit_buffer, ..a })
        },
        _ => cmd == LauncherCommand::Stay && launcher_message(a, b, "This key is not available while editing."@),
    }
}

/// Enter on the selected field: switches flip, actions go to the caller, text
/// fields start editing from their value.
pub open spec fn field_activated(a: LauncherState, b: LauncherState, cmd: LauncherCommand) -> bool {
    let f = selected_field_of(a.selected);
    match f {
        Field::HttpsInspection | Field::OnlyHttp1 | Field::ExtraCaEnv | Field::Redact | Field::ShowSecrets =>
            cmd == LauncherCommand::Stay && switch_toggled(a, b, f),
        Field::Start => cmd == LauncherCommand::Start && b == a,
        Field::CaStatus => cmd == LauncherCommand::CheckCaStatus && b == a,
        Field::CreateCa => cmd == LauncherCommand::CreateCa && b == a,
        Field::InstallCaTrust => cmd == LauncherCommand::InstallCaTrust && b == a,
        Field::CaPath => cmd == LauncherCommand::ShowCaPath && b == a,
        Field::CaFingerprint => cmd == LauncherCommand::ShowCaFingerprint && b == a,
        Field::RemoveCa => cmd == LauncherCommand::BeginCaRemove && b == a,
        _ => {
            &&& cmd == LauncherCommand::Stay
            &&& b.editing == Some(f)
            &&& b.edit_buffer@ == editable_of(a, f)
            &&& b.message@ == "Editing "@ + field_label_of(f) + "."@
            &&& b == (LauncherState { editing: b.editing, edit_buffer: b.edit_buffer, message: b.message, ..a })
        },
    }
}

/// A key on the form: arrows and `hjkl` move, Enter activates, Esc and `q` cancel.
pub open spec fn form_key_handled(a: LauncherState, b: LauncherState, key: KeyCode, cmd: LauncherCommand) -> bool {
    if key == KeyCode::Down || key == KeyCode::Char('j') {
        cmd == LauncherCommand::Stay && moved_vertically(a, b, false)
    } else if key == KeyCode::Up || key == KeyCode::Char('k') {
        cmd == LauncherCommand::Stay && moved_vertically(a, b, true)
    } else if key == KeyCode::Right || key == KeyCode::Char('l') {
        cmd == LauncherCommand::Stay && moved_horizontally(a, b, false)
    } else if key == KeyCode::Left || key == KeyCode::Char('h') {
        cmd == LauncherCommand::Stay && moved_horizontally(a, b, true)
    } else if key == KeyCode::Enter {
        field_activated(a, b, cmd)
    } else if key == KeyCode::Esc || key == KeyCode::Char('q') {
        cmd == LauncherCommand::Cancel && b == a
    } else {
        cmd == LauncherCommand::Stay && launcher_message(a, b, "This key is not available here."@)
    }
}

/// The file filter changed to `filter`: the selection is kept within the new list
/// and the message counts it.
pub open spec fn filter_changed(a: LauncherState, b: LauncherState, names: Seq<Seq<char>>, filter: Seq<char>) -> bool {
    let n = filtered_indices(names, filter).len();
    &&& b.launch_filter@ == filter
    &&& b.launch_selected == clamped_selection(a.launch_selected, n)
    &&& b.message@ == filter_message_of(n, filter)
    &&& b == (LauncherState {
        launch_filter: b.launch_filter,
        launch_selected: b.launch_selected,
        message: b.message,
        ..a
    })
}

/// A key on the file list, with the files listed under `names`: arrows move, Home
/// and End jump, typing edits the filter, Enter launches the selected file, Esc
/// goes back to the form.
pub open spec fn select_key_handled(
    a: LauncherState,
    b: LauncherState,
    key: KeyCode,
    cmd: LauncherCommand,
    names: Seq<Seq<char>>,
) -> bool {
    let filtered = filtered_indices(names, a.launch_filter@);
    match key {
        KeyCode::Down => cmd == LauncherCommand::Stay && launch_moved_given(a, b, names, true, 1isize),
        KeyCode::Up => cmd == LauncherCommand::Stay && launch_moved_given(a, b, names, true, -1isize),
        KeyCode::Right => cmd == LauncherCommand::Stay && launch_moved_given(a, b, names, false, 1isize),
        KeyCode::Left => cmd == LauncherCommand::Stay && launch_moved_given(a, b, names, false, -1isize),
        KeyCode::Home => cmd == LauncherCommand::Stay && launch_selected_at(a, b, 0),
        KeyCode::End => cmd == LauncherCommand::Stay && launch_selected_at(
            a,
            b,
            if filtered.len() > 0 { (filtered.len() - 1) as usize } else { 0 },
        ),
        KeyCode::Backspace => cmd == LauncherCommand::Stay && filter_changed(a, b, names, popped(a.launch_filter@)),
        KeyCode::Delete => cmd == LauncherCommand::Stay && filter_changed(a, b, names, Seq::empty()),
        KeyCode::Char(c) => cmd == LauncherCommand::Stay && filter_changed(a, b, names, a.launch_filter@.push(c)),
        KeyCode::Enter => if a.launch_selected < filtered.len() {
            &&& cmd == LauncherCommand::Launch
            &&& b.target@ == a.launch_options@[filtered[a.launch_selected as int] as int].path@
            &&& b == (LauncherState { target: b.target, ..a })
        } else {
            cmd == LauncherCommand::Stay && launcher_message(a, b, "No launchable file selected."@)
        },
        KeyCode::Esc => {
            &&& cmd == LauncherCommand::Stay
            &&& b.message@ == "Program selection cancelled."@
            &&& b == (LauncherState { screen: LauncherScreen::Form, message: b.message, ..a })
        },
        _ => cmd == LauncherCommand::Stay && launcher_message(
            a,
            b,
            "Choose a launchable file with Enter, or press Esc."@,
        ),
    }
}

/// A key while the removal of the CA files waits for confirmation.
pub open spec fn confirm_key_handled(a: LauncherState, b: LauncherState, key: KeyCode, cmd: LauncherCommand) -> bool {
    if key == KeyCode::Enter || key == KeyCode::Char('y') || key == KeyCode::Char('Y') {
        cmd == LauncherCommand::RemoveCa && b == (LauncherState { confirm_remove_ca: false, ..a })
    } else if key == KeyCode::Esc || key == KeyCode::Char('n') || key == KeyCode::Char('N') {
        &&& cmd == LauncherCommand::Stay
        &&& b.message@ == "CA removal cancelled."@
        &&& b == (LauncherState { confirm_remove_ca: false, message: b.message, ..a })
    } else {
        cmd == LauncherCommand::Stay && launcher_message(a, b, "Confirm CA removal with Enter/y, or cancel with Esc/n."@)
    }
}

/// A key in the launcher: a pending confirmation comes first, then an edit in
/// progress, then the screen shown.
pub open spec fn launcher_key_handled(
    a: LauncherState,
    b: LauncherState,
    key: KeyCode,
    cmd: LauncherCommand,
    names: Seq<Seq<char>>,
) -> bool {
    if a.confirm_remove_ca {
        confirm_key_handled(a, b, key, cmd)
    } else {
        match a.editing {
            Some(f) => editing_key_handled(a, b, f, key, cmd),
            None => match a.screen {
                LauncherScreen::Form => form_key_handled(a, b, key, cmd),
                LauncherScreen::LaunchSelect => select_key_handled(a, b, key, cmd, names),
            },
        }
    }
}

fn activate_field(state: &mut LauncherState) -> (cmd: LauncherCommand)
    ensures
        field_activated(*old(state), *final(state), cmd),
{
    let f = selected_field(state);
    match f {
        Field::HttpsInspection | Field::OnlyHttp1 | Field::ExtraCaEnv | Field::Redact | Field::ShowSecrets => {
            toggle_switch(state, f);
            LauncherCommand::Stay
        },
        Field::Start => LauncherCommand::Start,
        Field::CaStatus => LauncherCommand::CheckCaStatus,
        Field::CreateCa => LauncherCommand::CreateCa,
        Field::InstallCaTrust => LauncherCommand::InstallCaTrust,
        Field::CaPath => LauncherCommand::ShowCaPath,
        Field::CaFingerprint => LauncherCommand::ShowCaFingerprint,
        Field::RemoveCa => LauncherCommand::BeginCaRemove,
        _ => {
            state.editing = Some(f);
            state.edit_buffer = editable_value(state, f);
            let mut m = text::to_owned("Editing ");
            text::push_str(&mut m, field_label(f));
            text::push_str(&mut m, ".");
            state.message = m;
            LauncherCommand::Stay
        },
    }
}

fn handle_editing_key(state: &mut LauncherState, f: Field, key: KeyCode) -> (cmd: LauncherCommand)
    ensures
        editing_key_handled(*old(state), *final(state), f, key, cmd),
{
    match key {
        KeyCode::Enter => {
            apply_edit(state, f);
            state.editing = None;
            state.message = text::to_owned("Value saved.");
            LauncherCommand::Stay
        },
        KeyCode::Esc => {
            state.editing = None;
            state.message = text::to_owned("Edit cancelled.");
            LauncherCommand::Stay
        },
        KeyCode::Backspace => {
            text::pop_char(&mut state.edit_buffer);
            LauncherCommand::Stay
        },
        KeyCode::Tab => LauncherCommand::Complete(f),
        KeyCode::Char(c) => {
            text::push_char(&mut state.edit_buffer, c);
            LauncherCommand::Stay
        },
        _ => {
            set_launcher_message(state, "This key is not available while editing.");
            LauncherCommand::Stay
        },
    }
}

fn handle_form_key(state: &mut LauncherState, key: KeyCode) -> (cmd: LauncherCommand)
    ensures
        form_key_handled(*old(state), *final(state), key, cmd),
{
    if key == KeyCode::Down || key == KeyCode::Char('j') {
        move_selection_vertical(state, 1);
        LauncherCommand::Stay
    } else if key == KeyCode::Up || key == KeyCode::Char('k') {
        move_selection_vertical(state, -1);
        LauncherCommand::Stay
    } else if key == KeyCode::Right || key == KeyCode::Char('l') {
        move_selection_horizontal(state, 1);
        LauncherCommand::Stay
    } else if key == KeyCode::Left || key == KeyCode::Char('h') {
        move_selection_horizontal(state, -1);
        LauncherCommand::Stay
    } else if key == KeyCode::Enter {
        activate_field(state)
    } else if key == KeyCode::Esc || key == KeyCode::Char('q') {
        LauncherCommand::Cancel
    } else {
        set_launcher_message(state, "This key is not available here.");
        LauncherCommand::Stay
    }
}

fn edit_launch_filter(state: &mut LauncherState, names: &Vec<String>, filter: String)
    requires
        names@.len() == old(state).launch_options@.len(),
    ensures
        filter_changed(*old(state), *final(state), text::views(names@), filter@),
{
    state.launch_filter = filter;
    clamp_launch_selection_given(state, names);
    let m = launch_filter_message_given(state, names);
    state.message = m;
}

fn handle_launch_select_key(state: &mut LauncherState, names: &Vec<String>, key: KeyCode) -> (cmd: LauncherCommand)
    requires
        names@.len() == old(state).launch_options@.len(),
    ensures
        select_key_handled(*old(state), *final(state), key, cmd, text::views(names@)),
{
    match key {
        KeyCode::Down => {
            move_launch_selection(state, names, true, 1);
            LauncherCommand::Stay
        },
        KeyCode::Up => {
            move_launch_selection(state, names, true, -1);
            LauncherCommand::Stay
        },
        KeyCode::Right => {
            move_launch_selection(state, names, false, 1);
            LauncherCommand::Stay
        },
        KeyCode::Left => {
            move_launch_selection(state, names, false, -1);
            LauncherCommand::Stay
        },
        KeyCode::Home => {
            state.launch_selected = 0;
            state.message = String::new();
            LauncherCommand::Stay
        },
        KeyCode::End => {
            let filtered = filtered_launch_indices_given(names, state.launch_filter.as_str());
            state.launch_selected = if filtered.len() > 0 { filtered.len() - 1 } else { 0 };
            state.message = String::new();
            LauncherCommand::Stay
        },
        KeyCode::Backspace => {
            let mut filter = state.launch_filter.clone();
            text::pop_char(&mut filter);
            edit_launch_filter(state, names, filter);
            LauncherCommand::Stay
        },
        KeyCode::Delete => {
            edit_launch_filter(state, names, String::new());
            LauncherCommand::Stay
        },
        KeyCode::Char(c) => {
            let mut filter = state.launch_filter.clone();
            text::push_char(&mut filter, c);
            edit_launch_filter(state, names, filter);
            LauncherCommand::Stay
        },
        KeyCode::Enter => {
            let filtered = filtered_launch_indices_given(names, state.launch_filter.as_str());
            let n_names = names.len();
            proof {
                lemma_filtered_indices_bounded(text::views(names@), state.launch_filter@);
            }
            if state.launch_selected < filtered.len() {
                let option_index = filtered[state.launch_selected];
                state.target = state.launch_options[option_index].path.clone();
                LauncherCommand::Launch
            } else {
                set_launcher_message(state, "No launchable file selected.");
                LauncherCommand::Stay
            }
        },
        KeyCode::Esc => {
            state.screen = LauncherScreen::Form;
            state.message = text::to_owned("Program selection cancelled.");
            LauncherCommand::Stay
        },
        _ => {
            set_launcher_message(state, "Choose a launchable file with Enter, or press Esc.");
            LauncherCommand::Stay
        },
    }
}

fn handle_ca_remove_confirmation(state: &mut LauncherState, key: KeyCode) -> (cmd: LauncherCommand)
    ensures
        confirm_key_handled(*old(state), *final(state), key, cmd),
{
    if key == KeyCode::Enter || key == KeyCode::Char('y') || key == KeyCode::Char('Y') {
        state.confirm_remove_ca = false;
        LauncherCommand::RemoveCa
    } else if key == KeyCode::Esc || key == KeyCode::Char('n') || key == KeyCode::Char('N') {
        state.confirm_remove_ca = false;
        state.message = text::to_owned("CA removal cancelled.");
        LauncherCommand::Stay
    } else {
        set_launcher_message(state, "Confirm CA removal with Enter/y, or cancel with Esc/n.");
        LauncherCommand::Stay
    }
}

/// Handles a key in the launcher and says what the caller does next.
pub fn handle_launcher_key(state: &mut LauncherState, key: KeyCode) -> (cmd: LauncherCommand)
    ensures
        exists|names: Seq<Seq<char>>|
            names_fit(old(state).launch_options@, names) && launcher_key_handled(
                *old(state),
                *final(state),
                key,
                cmd,
                names,
            ),
{
    let names = launch_option_names(state);
    let ghost ns = text::views(names@);
    assert(ns.len() == names@.len());
    if state.confirm_remove_ca {
        let cmd = handle_ca_remove_confirmation(state, key);
        assert(launcher_key_handled(*old(state), *state, key, cmd, ns));
        return cmd;
    }
    match state.editing {
        Some(f) => {
            let cmd = handle_editing_key(state, f, key);
            assert(launcher_key_handled(*old(state), *state, key, cmd, ns));
            cmd
        },
        None => {
            match state.screen {
                LauncherScreen::Form => {
                    let cmd = handle_form_key(state, key);
                    assert(launcher_key_handled(*old(state), *state, key, cmd, ns));
                    cmd
                },
                LauncherScreen::LaunchSelect => {
                    let cmd = handle_launch_select_key(state, &names, key);
                    assert(launcher_key_handled(*old(state), *state, key, cmd, ns));
                    cmd
                },
            }
        },
    }
}

/// The key help shown under the launcher: a pending confirmation first, then an
/// edit in progress (with or without completion), then the screen.
pub open spec fn launcher_hint_of(state: LauncherState) -> Seq<char> {
    if state.confirm_remove_ca {
        "Enter/y remove local CA files | Esc/n cancel"@
    } else {
        match state.editing {
            Some(f) => if field_has_completion(f) {
                "Type value | Tab complete path | Enter save | Esc cancel edit"@
            } else {
                "Type value | Enter save | Esc cancel edit"@
            },
            None => match state.screen {
                LauncherScreen::Form => "Up/Down select | Left/Right paired fields | Enter edit/toggle/action | Esc/q cancel"@,
                LauncherScreen::LaunchSelect => "Type filter | Arrows select | Enter launch selected | Backspace edit | Esc back"@,
            },
        }
    }
}

/// Whether a field completes paths.
pub open spec fn field_has_completion(f: Field) -> bool {
    f == Field::Target || f == Field::Workdir || f == Field::CaDir || f == Field::SaveSession
}

/// The key help shown under the launcher.
pub fn launcher_hint(state: &LauncherState) -> (r: &'static str)
    ensures
        r@ == launcher_hint_of(*state),
{
    if state.confirm_remove_ca {
        return "Enter/y remove local CA files | Esc/n cancel";
    }
    match state.editing {
        Some(f) => if completion_mode(f).is_some() {
            "Type value | Tab complete path | Enter save | Esc cancel edit"
        } else {
            "Type value | Enter save | Esc cancel edit"
        },
        None => match state.screen {
            LauncherScreen::Form => "Up/Down select | Left/Right paired fields | Enter edit/toggle/action | Esc/q cancel",
            LauncherScreen::LaunchSelect => "Type filter | Arrows select | Enter launch selected | Backspace edit | Esc back",
        },
    }
}

/// What the caller of the folder chooser does after a key.
#[derive(Debug, Clone, PartialEq, Eq)]
pub enum ChooserCommand {
    /// Keep choosing.
    Stay,
    /// The choice was cancelled.
    Cancel,
    /// This file was chosen.
    Chosen(String),
}

/// A key in the folder chooser, with the files listed under `names`: arrows move,
/// typing edits the filter, Enter chooses the selected file (and does nothing when
/// none is selected), Esc cancels.
pub open spec fn chooser_key_handled(
    a: LauncherState,
    b: LauncherState,
    key: KeyCode,
    cmd: ChooserCommand,
    names: Seq<Seq<char>>,
) -> bool {
    let filtered = filtered_indices(names, a.launch_filter@);
    match key {
        KeyCode::Enter => if a.launch_selected < filtered.len() {
            &&& cmd matches ChooserCommand::Chosen(p)
            &&& p@ == a.launch_options@[filtered[a.launch_selected as int] as int].path@
            &&& b == a
        } else {
            cmd == ChooserCommand::Stay && b == a
        },
        KeyCode::Esc => cmd == ChooserCommand::Cancel && b == a,
        KeyCode::Down => cmd == ChooserCommand::Stay && launch_moved_given(a, b, names, true, 1isize),
        KeyCode::Up => cmd == ChooserCommand::Stay && launch_moved_given(a, b, names, true, -1isize),
        KeyCode::Right => cmd == ChooserCommand::Stay && launch_moved_given(a, b, names, false, 1isize),
        KeyCode::Left => cmd == ChooserCommand::Stay && launch_moved_given(a, b, names, false, -1isize),
        KeyCode::Backspace => cmd == ChooserCommand::Stay && filter_changed(a, b, names, popped(a.launch_filter@)),
        KeyCode::Delete => cmd == ChooserCommand::Stay && filter_changed(a, b, names, Seq::empty()),
        KeyCode::Char(c) => cmd == ChooserCommand::Stay && filter_changed(a, b, names, a.launch_filter@.push(c)),
        _ => cmd == ChooserCommand::Stay && launcher_message(a, b, "Choose with Enter, or cancel with Esc."@),
    }
}

/// Handles a key in the folder chooser and says what the caller does next.
pub fn handle_chooser_key(state: &mut LauncherState, key: KeyCode) -> (cmd: ChooserCommand)
    ensures
        exists|names: Seq<Seq<char>>|
            names_fit(old(state).launch_options@, names) && chooser_key_handled(
                *old(state),
                *final(state),
                key,
                cmd,
                names,
            ),
{
    let names = launch_option_names(state);
    let ghost ns = text::views(names@);
    assert(ns.len() == names@.len());
    let cmd = match key {
        KeyCode::Enter => {
            let filtered = filtered_launch_indices_given(&names, state.launch_filter.as_str());
            let n_names = names.len();
            proof {
                lemma_filtered_indices_bounded(ns, state.launch_filter@);
            }
            if state.launch_selected < filtered.len() {
                let option_index = filtered[state.launch_selected];
                ChooserCommand::Chosen(state.launch_options[option_index].path.clone())
            } else {
                ChooserCommand::Stay
            }
        },
        KeyCode::Esc => ChooserCommand::Cancel,
        KeyCode::Down => {
            move_launch_selection(state, &names, true, 1);
            ChooserCommand::Stay
        },
        KeyCode::Up => {
            move_launch_selection(state, &names, true, -1);
            ChooserCommand::Stay
        },
        KeyCode::Right => {
            move_launch_selection(state, &names, false, 1);
            ChooserCommand::Stay
        },
        KeyCode::Left => {
            move_launch_selection(state, &names, false, -1);
            ChooserCommand::Stay
        },
        KeyCode::Backspace => {
            let mut filter = state.launch_filter.clone();
            text::pop_char(&mut filter);
            edit_launch_filter(state, &names, filter);
            ChooserCommand::Stay
        },
        KeyCode::Delete => {
            edit_launch_filter(state, &names, String::new());
            ChooserCommand::Stay
        },
        KeyCode::Char(c) => {
            let mut filter = state.launch_filter.clone();
            text::push_char(&mut filter, c);
            edit_launch_filter(state, &names, filter);
            ChooserCommand::Stay
        },
        _ => {
            set_launcher_message(state, "Choose with Enter, or cancel with Esc.");
            ChooserCommand::Stay
        },
    };
    assert(chooser_key_handled(*old(state), *state, key, cmd, ns));
    cmd
}

/// The chooser over the launchable files of `folder`: the file list with the
/// first file selected and a message naming the folder, or the error when the
/// folder has none.
pub fn start_chooser(options: Vec<LaunchOption>, folder: &str) -> (r: Result<LauncherState, String>)
    ensures
        ({
            let label = text::join(launch_formats().map_values(|k: Seq<char>| launch_group_title_of(k)), ", "@);
            if options@.len() == 0 {
                r matches Err(e) && e@ == "no supported launch files ("@ + label + ") found in "@ + folder@
            } else {
                r matches Ok(st) && {
                    &&& st.screen == LauncherScreen::LaunchSelect
                    &&& st.launch_options@ == options@
                    &&& st.launch_selected == 0
                    &&& st.launch_filter@.len() == 0
                    &&& st.editing is None
                    &&& !st.confirm_remove_ca
                    &&& st.message@ == "Choose a launch file ("@ + label + ") from "@ + folder@ + "."@
                }
            }
        }),
{
    let label = supported_launch_formats_label();
    if options.len() == 0 {
        let mut e = joined("no supported launch files (", label.as_str(), ") found in ");
        text::push_str(&mut e, folder);
        return Err(e);
    }
    let mut state = LauncherState::default();
    state.screen = LauncherScreen::LaunchSelect;
    state.launch_options = options;
    let mut m = joined("Choose a launch file (", label.as_str(), ") from ");
    text::push_str(&mut m, folder);
    text::push_str(&mut m, ".");
    state.message = m;
    Ok(state)
}

/// Asks to confirm the removal of the CA files in `ca_dir`.
pub fn begin_ca_remove(state: &mut LauncherState, ca_dir: &str)
    ensures
        final(state).confirm_remove_ca,
        final(state).message@ == "Remove local CA files in "@ + ca_dir@
            + "? Enter/y confirms. This does not remove OS trust."@,
        *final(state) == (LauncherState { confirm_remove_ca: true, message: final(state).message, ..*old(state) }),
{
    state.confirm_remove_ca = true;
    let mut m = text::to_owned("Remove local CA files in ");
    text::push_str(&mut m, ca_dir);
    text::push_str(&mut m, "? Enter/y confirms. This does not remove OS trust.");
    state.message = m;
}

// ---------------------------------------------------------------------------
// CA actions: what the launcher shows of their outcome
// ---------------------------------------------------------------------------

/// `b` is `a` with the trust status `status` and the message `message`.
pub open spec fn ca_reported(a: LauncherState, b: LauncherState, status: Seq<char>, message: Seq<char>) -> bool {
    &&& b.ca_trust_status@ == status
    &&& b.message@ == message
    &&& b == (LauncherState { ca_trust_status: b.ca_trust_status, message: b.message, ..a })
}

fn report_ca(state: &mut LauncherState, status: &str, message: String)
    ensures
        ca_reported(*old(state), *final(state), status@, message@),
{
    state.ca_trust_status = text::to_owned(status);
    state.message = message;
}

/// A fingerprint, or `unknown` when it could not be read.
pub open spec fn fingerprint_or_unknown(f: Option<Seq<char>>) -> Seq<char> {
    match f {
        Some(f) => f,
        None => "unknown"@,
    }
}

fn fingerprint_text(f: &Option<String>) -> (r: String)
    ensures
        r@ == fingerprint_or_unknown(crate::capture::model::opt_view(*f)),
{
    match f {
        Some(f) => f.clone(),
        None => text::to_owned("unknown"),
    }
}

fn joined2(a: &str, b: &str) -> (r: String)
    ensures
        r@ == a@ + b@,
{
    let mut r = text::to_owned(a);
    text::push_str(&mut r, b);
    r
}

fn joined(a: &str, b: &str, c: &str) -> (r: String)
    ensures
        r@ == a@ + b@ + c@,
{
    let mut r = text::to_owned(a);
    text::push_str(&mut r, b);
    text::push_str(&mut r, c);
    r
}

/// Shows the outcome of checking the CA: whether its certificate exists at
/// `cert_path`, its fingerprint if it could be read, and whether the OS trusts it.
pub fn report_ca_status(
    state: &mut LauncherState,
    cert_path: &str,
    cert_exists: bool,
    fingerprint: &Option<String>,
    trusted: &Result<bool, String>,
)
    ensures
        !cert_exists ==> ca_reported(
            *old(state),
            *final(state),
            "not created"@,
            "No TLScope CA at "@ + cert_path@ + ". Choose Create CA."@,
        ),
        cert_exists ==> match trusted {
            Ok(true) => ca_reported(
                *old(state),
                *final(state),
                "trusted"@,
                "CA is trusted. SHA-256 "@ + fingerprint_or_unknown(crate::capture::model::opt_view(*fingerprint)),
            ),
            Ok(false) => ca_reported(
                *old(state),
                *final(state),
                "not trusted"@,
                "CA exists but is not trusted. SHA-256 "@ + fingerprint_or_unknown(
                    crate::capture::model::opt_view(*fingerprint),
                ),
            ),
            Err(e) => ca_reported(*old(state), *final(state), "check failed"@, "Cannot inspect OS trust store: "@ + e@),
        },
{
    if !cert_exists {
        report_ca(state, "not created", joined("No TLScope CA at ", cert_path, ". Choose Create CA."));
        return;
    }
    let fp = fingerprint_text(fingerprint);
    match trusted {
        Ok(true) => report_ca(state, "trusted", joined2("CA is trusted. SHA-256 ", fp.as_str())),
        Ok(false) => report_ca(state, "not trusted", joined2("CA exists but is not trusted. SHA-256 ", fp.as_str())),
        Err(e) => report_ca(state, "check failed", joined2("Cannot inspect OS trust store: ", e.as_str())),
    }
}

/// Shows the outcome of creating or loading the CA: its certificate path and
/// fingerprint, or the error.
pub fn report_ca_created(state: &mut LauncherState, outcome: &Result<(String, Option<String>), String>)
    ensures
        match outcome {
            Ok((path, fp)) => ca_reported(
                *old(state),
                *final(state),
                "not checked"@,
                "CA ready at "@ + path@ + ". SHA-256 "@ + fingerprint_or_unknown(crate::capture::model::opt_view(*fp)),
            ),
            Err(e) => ca_reported(*old(state), *final(state), "CA error"@, "Cannot create/load TLScope CA: "@ + e@),
        },
{
    match outcome {
        Ok((path, fp)) => {
            let f = fingerprint_text(fp);
            let mut m = joined("CA ready at ", path.as_str(), ". SHA-256 ");
            text::push_str(&mut m, f.as_str());
            report_ca(state, "not checked", m);
        },
        Err(e) => report_ca(state, "CA error", joined2("Cannot create/load TLScope CA: ", e.as_str())),
    }
}

/// How installing the CA into the OS trust store went.
#[derive(Debug)]
pub enum CaInstallOutcome {
    LoadFailed { error: String },
    CheckFailed { error: String },
    AlreadyTrusted { fingerprint: Option<String> },
    Installed { fingerprint: Option<String> },
    InstallFailed { error: String },
}

/// Shows the outcome of installing the CA into the OS trust store.
pub fn report_ca_install(state: &mut LauncherState, outcome: &CaInstallOutcome)
    ensures
        match outcome {
            CaInstallOutcome::LoadFailed { error } => ca_reported(
                *old(state),
                *final(state),
                "CA error"@,
                "Cannot create/load TLScope CA: "@ + error@,
            ),
            CaInstallOutcome::CheckFailed { error } => ca_reported(
                *old(state),
                *final(state),
                "check failed"@,
                "Cannot inspect CurrentUser Root store: "@ + error@,
            ),
            CaInstallOutcome::AlreadyTrusted { fingerprint } => ca_reported(
                *old(state),
                *final(state),
                "trusted"@,
                "TLScope CA is already trusted. SHA-256 "@ + fingerprint_or_unknown(
                    crate::capture::model::opt_view(*fingerprint),
                ),
            ),
            CaInstallOutcome::Installed { fingerprint } => ca_reported(
                *old(state),
                *final(state),
                "trusted"@,
                "Installed TLScope CA into CurrentUser Root. SHA-256 "@ + fingerprint_or_unknown(
                    crate::capture::model::opt_view(*fingerprint),
                ),
            ),
            CaInstallOutcome::InstallFailed { error } => ca_reported(
                *old(state),
                *final(state),
                "install failed"@,
                "CA install failed: "@ + error@,
            ),
        },
{
    match outcome {
        CaInstallOutcome::LoadFailed { error } => report_ca(
            state,
            "CA error",
            joined2("Cannot create/load TLScope CA: ", error.as_str()),
        ),
        CaInstallOutcome::CheckFailed { error } => report_ca(
            state,
            "check failed",
            joined2("Cannot inspect CurrentUser Root store: ", error.as_str()),
        ),
        CaInstallOutcome::AlreadyTrusted { fingerprint } => {
            let f = fingerprint_text(fingerprint);
            report_ca(state, "trusted", joined2("TLScope CA is already trusted. SHA-256 ", f.as_str()));
        },
        CaInstallOutcome::Installed { fingerprint } => {
            let f = fingerprint_text(fingerprint);
            report_ca(state, "trusted", joined2("Installed TLScope CA into CurrentUser Root. SHA-256 ", f.as_str()));
        },
        CaInstallOutcome::InstallFailed { error } => report_ca(
            state,
            "install failed",
            joined2("CA install failed: ", error.as_str()),
        ),
    }
}

/// Shows where the CA certificate is, or would be.
pub fn report_ca_path(state: &mut LauncherState, cert_path: &str, cert_exists: bool)
    ensures
        launcher_message(
            *old(state),
            *final(state),
            "CA "@ + (if cert_exists { "certificate"@ } else { "planned certificate path"@ }) + ": "@ + cert_path@,
        ),
{
    let mut m = text::to_owned("CA ");
    if cert_exists {
        text::push_str(&mut m, "certificate");
    } else {
        text::push_str(&mut m, "planned certificate path");
    }
    text::push_str(&mut m, ": ");
    text::push_str(&mut m, cert_path);
    state.message = m;
}

/// Shows the CA fingerprint, or why it could not be read.
pub fn report_ca_fingerprint(state: &mut LauncherState, outcome: &Result<String, String>)
    ensures
        match outcome {
            Ok(f) => launcher_message(*old(state), *final(state), "CA SHA-256 fingerprint: "@ + f@),
            Err(e) => launcher_message(*old(state), *final(state), "Cannot read CA fingerprint: "@ + e@),
        },
{
    match outcome {
        Ok(f) => state.message = joined2("CA SHA-256 fingerprint: ", f.as_str()),
        Err(e) => state.message = joined2("Cannot read CA fingerprint: ", e.as_str()),
    }
}

/// Shows the outcome of removing the CA files from `ca_dir`: whether files were
/// removed, or the error.
pub fn report_ca_removed(state: &mut LauncherState, ca_dir: &str, outcome: &Result<bool, String>)
    ensures
        match outcome {
            Ok(true) => ca_reported(
                *old(state),
                *final(state),
                "not created"@,
                "Removed local CA files from "@ + ca_dir@ + ". Remove OS trust manually if it was installed."@,
            ),
            Ok(false) => ca_reported(
                *old(state),
                *final(state),
                "not created"@,
                "No TLScope-created CA files were removed."@,
            ),
            Err(e) => ca_reported(*old(state), *final(state), "remove failed"@, "Cannot remove local CA files: "@ + e@),
        },
{
    match outcome {
        Ok(true) => report_ca(
            state,
            "not created",
            joined("Removed local CA files from ", ca_dir, ". Remove OS trust manually if it was installed."),
        ),
        Ok(false) => report_ca(state, "not created", text::to_owned("No TLScope-created CA files were removed.")),
        Err(e) => report_ca(state, "remove failed", joined2("Cannot remove local CA files: ", e.as_str())),
    }
}

// ---------------------------------------------------------------------------
// How fields are shown
// ---------------------------------------------------------------------------

/// The value shown for a field, given whether the CA certificate exists: the edit
/// buffer with a cursor while it is edited, else the value or its placeholder.
pub open spec fn field_value_of(state: LauncherState, f: Field, created: bool) -> Seq<char> {
    if state.editing == Some(f) {
        state.edit_buffer@ + "_"@
    } else {
        match f {
            Field::Target => display_empty_of(state.target@, "file/folder, Tab completes"@),
            Field::Arguments => display_empty_of(state.arguments@, "optional"@),
            Field::Workdir => display_empty_of(state.workdir@, "auto"@),
            Field::Start => "Enter to launch"@,
            Field::Listen => state.listen@,
            Field::MaxBody => state.max_body_size@,
            Field::Env => display_empty_of(state.env@, "KEY=VALUE;KEY2=VALUE"@),
            Field::SaveSession => display_empty_of(state.save_session@, "off"@),
            Field::HttpsInspection => if state.https_inspection { "ON"@ } else { "OFF"@ },
            Field::OnlyHttp1 => if state.only_http1 { "ON"@ } else { "OFF"@ },
            Field::ExtraCaEnv => if state.extra_ca_env { "ON"@ } else { "OFF"@ },
            Field::Redact => if state.redact { "ON"@ } else { "OFF"@ },
            Field::ShowSecrets => if state.show_secrets { "ON"@ } else { "OFF"@ },
            Field::CaDir => display_empty_of(state.ca_dir@, "default"@),
            Field::CaStatus => if created { "created | trust: "@ + state.ca_trust_status@ } else { "not created"@ },
            Field::InstallCaTrust => state.ca_trust_status@ + " | Enter install/check"@,
            Field::CreateCa | Field::CaPath | Field::CaFingerprint | Field::RemoveCa => "Enter"@,
        }
    }
}

/// The value shown for a field, given whether the CA certificate exists.
pub fn field_value(state: &LauncherState, f: Field, created: bool) -> (r: String)
    ensures
        r@ == field_value_of(*state, f, created),
{
    if state.editing == Some(f) {
        let mut r = state.edit_buffer.clone();
        text::push_str(&mut r, "_");
        return r;
    }
    match f {
        Field::Target => display_empty(state.target.as_str(), "file/folder, Tab completes"),
        Field::Arguments => display_empty(state.arguments.as_str(), "optional"),
        Field::Workdir => display_empty(state.workdir.as_str(), "auto"),
        Field::Start => text::to_owned("Enter to launch"),
        Field::Listen => state.listen.clone(),
        Field::MaxBody => state.max_body_size.clone(),
        Field::Env => display_empty(state.env.as_str(), "KEY=VALUE;KEY2=VALUE"),
        Field::SaveSession => display_empty(state.save_session.as_str(), "off"),
        Field::HttpsInspection => on_off(state.https_inspection),
        Field::OnlyHttp1 => on_off(state.only_http1),
        Field::ExtraCaEnv => on_off(state.extra_ca_env),
        Field::Redact => on_off(state.redact),
        Field::ShowSecrets => on_off(state.show_secrets),
        Field::CaDir => display_empty(state.ca_dir.as_str(), "default"),
        Field::CaStatus => ca_status_value(state, created),
        Field::InstallCaTrust => ca_trust_value(state),
        Field::CreateCa | Field::CaPath | Field::CaFingerprint | Field::RemoveCa => text::to_owned("Enter"),
    }
}

/// The colour a field's value is drawn in.
#[derive(Debug, Clone, Copy, PartialEq, Eq, Structural)]
pub enum FieldTone {
    Plain,
    Green,
    GreenBold,
    DarkGray,
    Red,
    Yellow,
    Cyan,
}

/// The colour of a CA trust status: green when trusted, red on a failure or error,
/// yellow when missing or untrusted, cyan otherwise.
pub open spec fn ca_status_tone_of(status: Seq<char>) -> FieldTone {
    if text::contains(status, "trusted"@) && !text::contains(status, "not trusted"@) {
        FieldTone::Green
    } else if text::contains(status, "failed"@) || text::contains(status, "error"@) {
        FieldTone::Red
    } else if text::contains(status, "not created"@) || text::contains(status, "not trusted"@) {
        FieldTone::Yellow
    } else {
        FieldTone::Cyan
    }
}

/// The colour of a CA trust status.
pub fn ca_status_tone(status: &str) -> (r: FieldTone)
    ensures
        r == ca_status_tone_of(status@),
{
    if text::contains_str(status, "trusted") && !text::contains_str(status, "not trusted") {
        FieldTone::Green
    } else if text::contains_str(status, "failed") || text::contains_str(status, "error") {
        FieldTone::Red
    } else if text::contains_str(status, "not created") || text::contains_str(status, "not trusted") {
        FieldTone::Yellow
    } else {
        FieldTone::Cyan
    }
}

/// The colour of a switch: green when on, grey when off.
pub open spec fn toggle_tone_of(enabled: bool) -> FieldTone {
    if enabled { FieldTone::Green } else { FieldTone::DarkGray }
}

/// The colour a field's value is drawn in: yellow while edited; switches by their
/// state (secrets shown in red); the CA status and trust by the status; actions in
/// cyan, removal in red, Start in bold green.
pub open spec fn field_tone_of(state: LauncherState, f: Field) -> FieldTone {
    if state.editing == Some(f) {
        FieldTone::Yellow
    } else {
        match f {
            Field::HttpsInspection => toggle_tone_of(state.https_inspection),
            Field::OnlyHttp1 => toggle_tone_of(state.only_http1),
            Field::ExtraCaEnv => toggle_tone_of(state.extra_ca_env),
            Field::Redact => toggle_tone_of(state.redact),
            Field::ShowSecrets => if state.show_secrets { FieldTone::Red } else { FieldTone::Green },
            Field::CaStatus | Field::InstallCaTrust => ca_status_tone_of(state.ca_trust_status@),
            Field::CreateCa | Field::CaPath | Field::CaFingerprint => FieldTone::Cyan,
            Field::RemoveCa => FieldTone::Red,
            Field::Start => FieldTone::GreenBold,
            _ => FieldTone::Plain,
        }
    }
}

/// The colour a field's value is drawn in.
pub fn field_tone(state: &LauncherState, f: Field) -> (r: FieldTone)
    ensures
        r == field_tone_of(*state, f),
{
    if state.editing == Some(f) {
        return FieldTone::Yellow;
    }
    match f {
        Field::HttpsInspection => if state.https_inspection { FieldTone::Green } else { FieldTone::DarkGray },
        Field::OnlyHttp1 => if state.only_http1 { FieldTone::Green } else { FieldTone::DarkGray },
        Field::ExtraCaEnv => if state.extra_ca_env { FieldTone::Green } else { FieldTone::DarkGray },
        Field::Redact => if state.redact { FieldTone::Green } else { FieldTone::DarkGray },
        Field::ShowSecrets => if state.show_secrets { FieldTone::Red } else { FieldTone::Green },
        Field::CaStatus | Field::InstallCaTrust => ca_status_tone(state.ca_trust_status.as_str()),
        Field::CreateCa | Field::CaPath | Field::CaFingerprint => FieldTone::Cyan,
        Field::RemoveCa => FieldTone::Red,
        Field::Start => FieldTone::GreenBold,
        _ => FieldTone::Plain,
    }
}

// ---------------------------------------------------------------------------
// Path completion
// ---------------------------------------------------------------------------

/// What a field's path completion offers.
#[derive(Debug, Clone, Copy, PartialEq, Eq, Structural)]
pub enum CompletionMode {
    /// Launchable files and folders.
    ExecutableOrDir,
    Directory,
    Any,
}

/// Which completion a field has: the program path completes launchable files and
/// folders, the working and CA directories complete folders, the session file
/// anything.
pub fn completion_mode(f: Field) -> (r: Option<CompletionMode>)
    ensures
        r == match f {
            Field::Target => Some(CompletionMode::ExecutableOrDir),
            Field::Workdir | Field::CaDir => Some(CompletionMode::Directory),
            Field::SaveSession => Some(CompletionMode::Any),
            _ => None::<CompletionMode>,
        },
{
    match f {
        Field::Target => Some(CompletionMode::ExecutableOrDir),
        Field::Workdir | Field::CaDir => Some(CompletionMode::Directory),
        Field::SaveSession => Some(CompletionMode::Any),
        _ => None,
    }
}

/// An entry of the folder being completed in: its name and whether it is a folder.
#[derive(Debug)]
pub struct CompletionCandidate {
    pub name: String,
    pub is_dir: bool,
}

/// What a completion gives: a new value and a message, or only a message.
#[derive(Debug, PartialEq, Eq)]
pub enum CompletionOutcome {
    Completed(String, String),
    Choices(String),
    NoMatch(String),
}

/// Shows a completion's outcome: a completed value replaces the edit buffer; every
/// outcome, or the error, becomes the message. `None` means the field has no
/// completion.
pub fn apply_completion(state: &mut LauncherState, outcome: Option<Result<CompletionOutcome, String>>)
    ensures
        match outcome {
            None => launcher_message(*old(state), *final(state), "Path completion is not available for this field."@),
            Some(Ok(CompletionOutcome::Completed(v, m))) => {
                &&& final(state).edit_buffer@ == v@
                &&& final(state).message@ == m@
                &&& *final(state) == (LauncherState {
                    edit_buffer: final(state).edit_buffer,
                    message: final(state).message,
                    ..*old(state)
                })
            },
            Some(Ok(CompletionOutcome::Choices(m))) => launcher_message(*old(state), *final(state), m@),
            Some(Ok(CompletionOutcome::NoMatch(m))) => launcher_message(*old(state), *final(state), m@),
            Some(Err(e)) => launcher_message(*old(state), *final(state), e@),
        },
{
    match outcome {
        None => set_launcher_message(state, "Path completion is not available for this field."),
        Some(Ok(CompletionOutcome::Completed(v, m))) => {
            state.edit_buffer = v;
            state.message = m;
        },
        Some(Ok(CompletionOutcome::Choices(m))) => state.message = m,
        Some(Ok(CompletionOutcome::NoMatch(m))) => state.message = m,
        Some(Err(e)) => state.message = e,
    }
}

/// The model of a candidate.
pub open spec fn candidate_view(c: CompletionCandidate) -> (Seq<char>, bool) {
    (c.name@, c.is_dir)
}

/// Inserts `x` after the candidates whose lower-cased names do not sort after its.
pub open spec fn insert_by_name(s: Seq<(Seq<char>, bool)>, x: (Seq<char>, bool)) -> Seq<(Seq<char>, bool)>
    decreases s.len(),
{
    if s.len() == 0 {
        seq![x]
    } else if text::seq_lt(text::lower(x.0), text::lower(s[0].0)) {
        seq![x] + s
    } else {
        seq![s[0]] + insert_by_name(s.drop_first(), x)
    }
}

/// The candidates sorted by lower-cased name; equal names keep their order.
pub open spec fn sorted_by_name(s: Seq<(Seq<char>, bool)>) -> Seq<(Seq<char>, bool)>
    decreases s.len(),
{
    if s.len() == 0 {
        Seq::empty()
    } else {
        insert_by_name(sorted_by_name(s.drop_last()), s.last())
    }
}

/// No candidate comes after one whose lower-cased name sorts after its own.
pub open spec fn names_in_order(s: Seq<(Seq<char>, bool)>) -> bool {
    forall|i: int, j: int|
        0 <= i < j < s.len() ==> !text::seq_lt(text::lower(#[trigger] s[j].0), text::lower(#[trigger] s[i].0))
}

proof fn lemma_insert_by_name(s: Seq<(Seq<char>, bool)>, x: (Seq<char>, bool)) -> (k: int)
    requires
        names_in_order(s),
    ensures
        0 <= k <= s.len(),
        insert_by_name(s, x) == s.insert(k, x),
        names_in_order(insert_by_name(s, x)),
    decreases s.len(),
{
    if s.len() == 0 {
        assert(seq![x] =~= s.insert(0, x));
        0
    } else if text::seq_lt(text::lower(x.0), text::lower(s[0].0)) {
        let r = seq![x] + s;
        assert(r =~= s.insert(0, x));
        assert forall|i: int, j: int| 0 <= i < j < r.len() implies !text::seq_lt(
            text::lower(#[trigger] r[j].0),
            text::lower(#[trigger] r[i].0),
        ) by {
            if i == 0 {
                if text::seq_lt(text::lower(r[j].0), text::lower(x.0)) {
                    text::lemma_lt_trans(text::lower(r[j].0), text::lower(x.0), text::lower(s[0].0));
                    if j == 1 {
                        text::lemma_lt_irrefl(text::lower(s[0].0));
                    } else {
                        assert(r[j] == s[j - 1]);
                        assert(!text::seq_lt(text::lower(s[j - 1].0), text::lower(s[0].0)));
                    }
                }
            } else {
                assert(r[i] == s[i - 1] && r[j] == s[j - 1]);
            }
        }
        0
    } else {
        let rest = s.drop_first();
        assert forall|i: int, j: int| 0 <= i < j < rest.len() implies !text::seq_lt(
            text::lower(#[trigger] rest[j].0),
            text::lower(#[trigger] rest[i].0),
        ) by {
            assert(rest[i] == s[i + 1] && rest[j] == s[j + 1]);
        }
        let k = lemma_insert_by_name(rest, x);
        let t = insert_by_name(rest, x);
        let r = seq![s[0]] + t;
        assert(r =~= s.insert(k + 1, x));
        assert forall|i: int, j: int| 0 <= i < j < r.len() implies !text::seq_lt(
            text::lower(#[trigger] r[j].0),
            text::lower(#[trigger] r[i].0),
        ) by {
            if i == 0 {
                assert(r[0] == s[0]);
                assert(r[j] == t[j - 1]);
                if j - 1 < k {
                    assert(t[j - 1] == rest[j - 1]);
                    assert(rest[j - 1] == s[j]);
                } else if j - 1 == k {
                    assert(t[j - 1] == x);
                } else {
                    assert(t[j - 1] == rest[j - 2]);
                    assert(rest[j - 2] == s[j - 1]);
                }
            } else {
                assert(r[i] == t[i - 1] && r[j] == t[j - 1]);
            }
        }
        k + 1
    }
}

/// Sorting completion candidates lists them by lower-cased name and loses or adds
/// none.
pub proof fn lemma_sorted_by_name_ordered(s: Seq<(Seq<char>, bool)>)
    ensures
        names_in_order(sorted_by_name(s)),
        sorted_by_name(s).to_multiset() == s.to_multiset(),
    decreases s.len(),
{
    broadcast use vstd::seq_lib::group_to_multiset_ensures;
    if s.len() > 0 {
        lemma_sorted_by_name_ordered(s.drop_last());
        let k = lemma_insert_by_name(sorted_by_name(s.drop_last()), s.last());
        vstd::seq_lib::to_multiset_insert(sorted_by_name(s.drop_last()), k, s.last());
        assert(s.drop_last().push(s.last()) =~= s);
    }
}

/// The candidates whose lower-cased names start with the lower-cased prefix, in order.
pub open spec fn matching_candidates(s: Seq<(Seq<char>, bool)>, prefix: Seq<char>) -> Seq<(Seq<char>, bool)>
    decreases s.len(),
{
    if s.len() == 0 {
        Seq::empty()
    } else {
        matching_candidates(s.drop_last(), prefix) + if text::starts_with(text::lower(s.last().0), text::lower(prefix)) {
            seq![s.last()]
        } else {
            Seq::empty()
        }
    }
}

/// How far, from `i` on, all values agree in any letter case with the first.
pub open spec fn agree_len(vs: Seq<Seq<char>>, i: nat) -> nat
    decreases vs[0].len() - i,
{
    if vs.len() > 0 && i < vs[0].len() && all_agree_at(vs, i as int) {
        agree_len(vs, i + 1)
    } else {
        i
    }
}

/// The longest start that all values share, in any letter case, as the first
/// value writes it.
pub open spec fn common_prefix_of(vs: Seq<Seq<char>>) -> Seq<char> {
    if vs.len() == 0 {
        Seq::empty()
    } else {
        vs[0].take(agree_len(vs, 0) as int)
    }
}

proof fn lemma_agree_len(vs: Seq<Seq<char>>, i: nat, k: nat)
    requires
        vs.len() > 0,
        i <= k <= vs[0].len(),
        forall|j: int| i <= j < k ==> all_agree_at(vs, j),
        k == vs[0].len() || !all_agree_at(vs, k as int),
    ensures
        agree_len(vs, i) == k,
    decreases k - i,
{
    if i < k {
        lemma_agree_len(vs, i + 1, k);
    }
}

/// What completing in a folder decides, before the path is joined.
#[derive(Debug)]
pub enum CompletionDecision {
    /// Nothing matches.
    NoMatch(String),
    /// One entry matches: complete to it (a folder gets a separator).
    Single { name: String, is_dir: bool, message: String },
    /// Several match and share a longer start: complete to it.
    Common { prefix: String, message: String },
    /// Several match and share nothing more: list them.
    Choices(String),
}

/// The first five names, joined by `, `.
pub open spec fn preview_of(names: Seq<Seq<char>>) -> Seq<char> {
    text::join(names.take(if names.len() < 5 { names.len() as int } else { 5 }), ", "@)
}

/// What completing `prefix` among a folder's entries decides: the entries whose
/// names start with it (in any letter case), sorted by lower-cased name; none is no
/// match, one completes to it, several complete to their longer common start or
/// else list the first five.
pub open spec fn completion_decision_of(
    base_display: Seq<char>,
    prefix: Seq<char>,
    entries: Seq<(Seq<char>, bool)>,
) -> (Seq<char>, Seq<char>, int, bool) {
    let m = sorted_by_name(matching_candidates(entries, prefix));
    let names = m.map_values(|c: (Seq<char>, bool)| c.0);
    let common = common_prefix_of(names);
    if m.len() == 0 {
        ("No path matches '"@ + prefix + "' in "@ + base_display + "."@, Seq::empty(), 0, false)
    } else if m.len() == 1 {
        ("Completed "@ + m[0].0 + "."@, m[0].0, 1, m[0].1)
    } else if text::byte_len(common) > text::byte_len(prefix) {
        ("Completed common prefix; "@ + text::decimal(m.len()) + " matches."@, common, 2, false)
    } else {
        (text::decimal(m.len()) + " matches: "@ + preview_of(names), Seq::empty(), 3, false)
    }
}

fn insert_candidate(v: &mut Vec<CompletionCandidate>, x: CompletionCandidate)
    ensures
        final(v)@.map_values(|c: CompletionCandidate| candidate_view(c)) == insert_by_name(
            old(v)@.map_values(|c: CompletionCandidate| candidate_view(c)),
            candidate_view(x),
        ),
{
    let ghost s = old(v)@.map_values(|c: CompletionCandidate| candidate_view(c));
    let key = text::to_lower(x.name.as_str());
    let mut p: usize = 0;
    proof {
        assert(s.take(0) =~= Seq::<(Seq<char>, bool)>::empty());
        assert(s.skip(0) =~= s);
        assert(s.take(0) + insert_by_name(s.skip(0), candidate_view(x)) =~= insert_by_name(s, candidate_view(x)));
    }
    while p < v.len()
        invariant
            0 <= p <= v@.len(),
            v@ == old(v)@,
            s == old(v)@.map_values(|c: CompletionCandidate| candidate_view(c)),
            key@ == text::lower(x.name@),
            s.take(p as int) + insert_by_name(s.skip(p as int), candidate_view(x)) == insert_by_name(s, candidate_view(x)),
        ensures
            0 <= p <= v@.len(),
            v@ == old(v)@,
            s.take(p as int) + insert_by_name(s.skip(p as int), candidate_view(x)) == insert_by_name(s, candidate_view(x)),
            p < v@.len() ==> text::seq_lt(text::lower(x.name@), text::lower(s[p as int].0)),
        decreases v.len() - p,
    {
        let other = text::to_lower(v[p].name.as_str());
        let ghost rest = s.skip(p as int);
        proof {
            assert(rest[0] == candidate_view(v@[p as int]));
        }
        if text::str_lt(key.as_str(), other.as_str()) {
            break;
        }
        proof {
            assert(rest.drop_first() =~= s.skip(p + 1));
            assert(s.take(p + 1) =~= s.take(p as int).push(rest[0]));
            assert(s.take(p as int) + (seq![rest[0]] + insert_by_name(rest.drop_first(), candidate_view(x))) =~= s.take(
                p + 1,
            ) + insert_by_name(s.skip(p + 1), candidate_view(x)));
        }
        p = p + 1;
    }
    let ghost vx = candidate_view(x);
    v.insert(p, x);
    proof {
        if p < s.len() {
            assert(s.skip(p as int)[0] == s[p as int]);
        } else {
            assert(s.skip(p as int) =~= Seq::<(Seq<char>, bool)>::empty());
        }
        assert(v@.map_values(|c: CompletionCandidate| candidate_view(c)) =~= s.take(p as int) + (seq![vx] + s.skip(
            p as int,
        )));
    }
}

/// Decides a completion among a folder's entries; `base_display` names the folder in
/// the message when nothing matches.
pub fn completion_decision(base_display: &str, prefix: &str, entries: Vec<CompletionCandidate>) -> (r: CompletionDecision)
    ensures
        ({
            let d = completion_decision_of(
                base_display@,
                prefix@,
                entries@.map_values(|c: CompletionCandidate| candidate_view(c)),
            );
            match r {
                CompletionDecision::NoMatch(m) => d.2 == 0 && m@ == d.0,
                CompletionDecision::Single { name, is_dir, message } => d.2 == 1 && message@ == d.0 && name@ == d.1
                    && is_dir == d.3,
                CompletionDecision::Common { prefix: p, message } => d.2 == 2 && message@ == d.0 && p@ == d.1,
                CompletionDecision::Choices(m) => d.2 == 3 && m@ == d.0,
            }
        }),
{
    let ghost all = entries@.map_values(|c: CompletionCandidate| candidate_view(c));
    let needle = text::to_lower(prefix);
    let mut matching: Vec<CompletionCandidate> = Vec::new();
    let mut entries = entries;
    let ghost original = entries@;
    // Take the entries out front to back, keeping the matching ones in sorted order.
    proof {
        assert(all.take(0) =~= Seq::<(Seq<char>, bool)>::empty());
        assert(matching_candidates(all.take(0), prefix@) =~= Seq::<(Seq<char>, bool)>::empty());
    }
    let mut i: usize = 0;
    let n = entries.len();
    assert(original.skip(0) =~= original);
    while i < n
        invariant
            n == original.len(),
            0 <= i <= n,
            entries@ == original.skip(i as int),
            all == original.map_values(|c: CompletionCandidate| candidate_view(c)),
            needle@ == text::lower(prefix@),
            matching@.map_values(|c: CompletionCandidate| candidate_view(c)) == sorted_by_name(
                matching_candidates(all.take(i as int), prefix@),
            ),
        decreases n - i,
    {
        let c = entries.remove(0);
        proof {
            assert(c == original[i as int]);
            assert(entries@ =~= original.skip(i + 1));
            assert(all.take(i + 1).drop_last() =~= all.take(i as int));
            assert(all.take(i + 1).last() == candidate_view(c));
        }
        let lower_name = text::to_lower(c.name.as_str());
        if text::has_prefix(lower_name.as_str(), needle.as_str()) {
            proof {
                assert(matching_candidates(all.take(i + 1), prefix@) =~= matching_candidates(all.take(i as int), prefix@).push(
                    candidate_view(c),
                ));
                assert(matching_candidates(all.take(i + 1), prefix@).drop_last() =~= matching_candidates(
                    all.take(i as int),
                    prefix@,
                ));
                assert(matching_candidates(all.take(i + 1), prefix@).last() == candidate_view(c));
            }
            insert_candidate(&mut matching, c);
        } else {
            proof {
                assert(matching_candidates(all.take(i + 1), prefix@) =~= matching_candidates(all.take(i as int), prefix@));
            }
        }
        i = i + 1;
    }
    proof {
        assert(all.take(n as int) =~= all);
    }
    let ghost m = sorted_by_name(matching_candidates(all, prefix@));
    assert(matching@.map_values(|c: CompletionCandidate| candidate_view(c)) == m);
    if matching.len() == 0 {
        let mut msg = text::to_owned("No path matches '");
        text::push_str(&mut msg, prefix);
        text::push_str(&mut msg, "' in ");
        text::push_str(&mut msg, base_display);
        text::push_str(&mut msg, ".");
        return CompletionDecision::NoMatch(msg);
    }
    let mut names: Vec<String> = Vec::new();
    let mut k: usize = 0;
    while k < matching.len()
        invariant
            0 <= k <= matching@.len(),
            names@.len() == k,
            forall|j: int| 0 <= j < k ==> names@[j]@ == matching@[j].name@,
        decreases matching.len() - k,
    {
        names.push(matching[k].name.clone());
        k = k + 1;
    }
    let ghost ns = m.map_values(|c: (Seq<char>, bool)| c.0);
    proof {
        assert(text::views(names@) =~= ns) by {
            assert forall|j: int| 0 <= j < ns.len() implies text::views(names@)[j] == ns[j] by {
                assert(m[j] == candidate_view(matching@[j]));
            }
        }
    }
    if matching.len() == 1 {
        let mut msg = text::to_owned("Completed ");
        text::push_str(&mut msg, matching[0].name.as_str());
        text::push_str(&mut msg, ".");
        proof {
            assert(m[0] == candidate_view(matching@[0]));
        }
        return CompletionDecision::Single { name: matching[0].name.clone(), is_dir: matching[0].is_dir, message: msg };
    }
    let common = common_prefix(names.as_slice());
    proof {
        lemma_agree_len(ns, 0, common@.len());
    }
    if text::str_len(common.as_str()) > text::str_len(prefix) {
        let mut msg = text::to_owned("Completed common prefix; ");
        text::push_decimal(&mut msg, matching.len() as u64);
        text::push_str(&mut msg, " matches.");
        return CompletionDecision::Common { prefix: common, message: msg };
    }
    let shown: usize = if names.len() < 5 { names.len() } else { 5 };
    let mut first: Vec<String> = Vec::new();
    let mut q: usize = 0;
    while q < shown
        invariant
            0 <= q <= shown <= names@.len(),
            first@.len() == q,
            forall|j: int| 0 <= j < q ==> first@[j]@ == names@[j]@,
        decreases shown - q,
    {
        first.push(names[q].clone());
        q = q + 1;
    }
    proof {
        assert(text::views(first@) =~= ns.take(shown as int)) by {
            assert forall|j: int| 0 <= j < shown implies text::views(first@)[j] == ns.take(shown as int)[j] by {
                assert(text::views(names@)[j] == ns[j]);
            }
        }
    }
    let preview = text::join_strings(&first, ", ");
    let mut msg = String::new();
    text::push_decimal(&mut msg, matching.len() as u64);
    text::push_str(&mut msg, " matches: ");
    text::push_str(&mut msg, preview.as_str());
    CompletionDecision::Choices(msg)
}

/// A completed path as it goes back into the edit buffer: a folder gets a trailing
/// `separator` unless it ends with one, and the whole is quoted when it was quoted
/// or holds a space.
pub open spec fn path_for_edit_of(path: Seq<char>, append_separator: bool, force_quote: bool, separator: char) -> Seq<char> {
    let ends = path.len() > 0 && (path.last() == '\\' || path.last() == '/');
    let v = if append_separator && !ends { path.push(separator) } else { path };
    if force_quote || v.contains(' ') {
        "\""@ + v + "\""@
    } else {
        v
    }
}

/// A completed path as it goes back into the edit buffer.
pub fn format_path_for_edit(path: &str, append_separator: bool, force_quote: bool, separator: char) -> (r: String)
    ensures
        r@ == path_for_edit_of(path@, append_separator, force_quote, separator),
{
    let chars = text::chars_of(path);
    let ends = chars.len() > 0 && (chars[chars.len() - 1] == '\\' || chars[chars.len() - 1] == '/');
    let mut value = text::to_owned(path);
    if append_separator && !ends {
        text::push_char(&mut value, separator);
    }
    let vc = text::chars_of(value.as_str());
    let mut has_space = false;
    let mut i: usize = 0;
    while i < vc.len()
        invariant
            0 <= i <= vc@.len(),
            has_space == (exists|j: int| 0 <= j < i && vc@[j] == ' '),
        decreases vc.len() - i,
    {
        if vc[i] == ' ' {
            has_space = true;
        }
        i = i + 1;
    }
    proof {
        assert(has_space == value@.contains(' ')) by {
            if value@.contains(' ') {
                let j = choose|j: int| 0 <= j < value@.len() && value@[j] == ' ';
                assert(vc@[j] == ' ');
            }
        }
    }
    if force_quote || has_space {
        let mut r = text::to_owned("\"");
        text::push_str(&mut r, value.as_str());
        text::push_str(&mut r, "\"");
        r
    } else {
        value
    }
}

// ---------------------------------------------------------------------------
// Starting a launch
// ---------------------------------------------------------------------------

/// The name of whether text parses as a socket address (`ip:port`), by
/// `str::parse::<core::net::SocketAddr>`.
pub uninterp spec fn is_socket_addr_text(s: Seq<char>) -> bool;

/// Whether the text parses as a socket address, by
/// `str::parse::<core::net::SocketAddr>`.
#[verifier::external_body]
pub(crate) fn parses_as_socket_addr(s: &str) -> (r: bool)
    ensures
        r == is_socket_addr_text(s@),
{
    s.parse::<core::net::SocketAddr>().is_ok()
}

/// What a launch target resolves to: the program, the arguments it comes with, the
/// folder it suggests running in, and how its processes are recognised.
#[derive(Debug)]
pub struct ResolvedTarget {
    pub program: String,
    pub arguments: Vec<String>,
    pub workdir: Option<String>,
    pub process_tracking: ProcessTrackingConfig,
}

/// A launch target that is a program itself: no arguments of its own, run in
/// `parent` (its folder, when the path has one), processes recognised by its path.
pub fn resolve_program_target(target: &str, parent: Option<String>) -> (r: ResolvedTarget)
    ensures
        r.program@ == target@,
        r.arguments@.len() == 0,
        r.workdir == parent,
        exists|n: Option<Seq<char>>, st: Option<Seq<char>>|
            name_fits(target@, n) && stem_fits(target@, st) && #[trigger] path_added(default_tracking(), target@, n, st)
                == r.process_tracking@,
{
    let mut tracking = ProcessTrackingConfig::default();
    tracking.add_target_path(target);
    ResolvedTarget { program: text::to_owned(target), arguments: Vec::new(), workdir: parent, process_tracking: tracking }
}

/// What the launcher hands over to run a program through the proxy.
#[derive(Debug)]
pub struct LaunchPlan {
    pub listen: String,
    pub no_tls_decryption: bool,
    pub only_http1: bool,
    pub ca_dir: Option<String>,
    pub max_body_size: usize,
    pub redact: bool,
    pub show_secrets: bool,
    pub save_session: Option<String>,
    pub allow_external: bool,
    pub workdir: String,
    pub env: Vec<String>,
    pub no_extra_ca_env: bool,
    pub tls_confirmed: bool,
    pub command: Vec<String>,
    pub process_tracking: ProcessTrackingConfig,
}

/// The folder a launch runs in when none is given: the target's own suggestion,
/// else the program's folder, else the target's folder, else `.`.
pub open spec fn default_workdir_of(
    suggested: Option<Seq<char>>,
    program_parent: Option<Seq<char>>,
    target_parent: Option<Seq<char>>,
) -> Seq<char> {
    match suggested {
        Some(w) => w,
        None => match program_parent {
            Some(p) => p,
            None => match target_parent {
                Some(t) => t,
                None => "."@,
            },
        },
    }
}

/// Builds the launch from the form and the resolved target. The listen address
/// must parse as a socket address and the body limit as a `usize` (both trimmed),
/// and the typed arguments must split; the first that fails gives the error. The
/// command is the program, its own arguments, then the typed ones.
pub fn plan_launch(
    state: &LauncherState,
    resolved: ResolvedTarget,
    program_parent: Option<String>,
    target_parent: Option<String>,
) -> (r: Result<LaunchPlan, String>)
    ensures
        ({
            let listen = text::trim(state.listen@);
            let max = text::trim(state.max_body_size@);
            let split = split_args_from(state.arguments@, 0, Seq::empty(), Seq::empty(), None);
            if !is_socket_addr_text(listen) {
                r matches Err(e) && e@ == "invalid proxy listen address '"@ + listen + "'"@
            } else if text::parse_uint(max, usize::MAX as nat) is None {
                r matches Err(e) && e@ == "invalid max body size '"@ + max + "'"@
            } else {
                match split {
                    Err(m) => r matches Err(e) && e@ == m,
                    Ok(words) => r matches Ok(plan) && {
                        &&& plan.listen@ == listen
                        &&& plan.no_tls_decryption == !state.https_inspection
                        &&& plan.only_http1 == state.only_http1
                        &&& crate::capture::model::opt_view(plan.ca_dir) == (if text::trim(state.ca_dir@).len() == 0 {
                            None
                        } else {
                            Some(normalized_path_text(state.ca_dir@))
                        })
                        &&& plan.max_body_size as nat == text::parse_uint(max, usize::MAX as nat).unwrap()
                        &&& plan.redact == state.redact
                        &&& plan.show_secrets == state.show_secrets
                        &&& crate::capture::model::opt_view(plan.save_session) == (if text::trim(state.save_session@).len()
                            == 0 {
                            None
                        } else {
                            Some(normalized_path_text(state.save_session@))
                        })
                        &&& !plan.allow_external
                        &&& plan.workdir@ == (if text::trim(state.workdir@).len() == 0 {
                            default_workdir_of(
                                crate::capture::model::opt_view(resolved.workdir),
                                crate::capture::model::opt_view(program_parent),
                                crate::capture::model::opt_view(target_parent),
                            )
                        } else {
                            normalized_path_text(state.workdir@)
                        })
                        &&& text::views(plan.env@) == env_overrides(state.env@)
                        &&& plan.no_extra_ca_env == !state.extra_ca_env
                        &&& plan.tls_confirmed == state.https_inspection
                        &&& text::views(plan.command@) == seq![resolved.program@] + text::views(resolved.arguments@) + words
                        &&& plan.process_tracking@ == resolved.process_tracking@
                    },
                }
            }
        }),
{
    let listen = text::trim_str(state.listen.as_str());
    if !parses_as_socket_addr(listen.as_str()) {
        let mut e = text::to_owned("invalid proxy listen address '");
        text::push_str(&mut e, listen.as_str());
        text::push_str(&mut e, "'");
        return Err(e);
    }
    let max_text = text::trim_str(state.max_body_size.as_str());
    let max_body_size: usize = match text::parse_uint_str(max_text.as_str(), usize::MAX as u64) {
        Some(n) => n as usize,
        None => {
            let mut e = text::to_owned("invalid max body size '");
            text::push_str(&mut e, max_text.as_str());
            text::push_str(&mut e, "'");
            return Err(e);
        },
    };
    let words = split_args(state.arguments.as_str())?;
    let mut command: Vec<String> = Vec::new();
    command.push(resolved.program.clone());
    let mut i: usize = 0;
    while i < resolved.arguments.len()
        invariant
            0 <= i <= resolved.arguments@.len(),
            text::views(command@) == seq![resolved.program@] + text::views(resolved.arguments@).take(i as int),
        decreases resolved.arguments.len() - i,
    {
        let ghost before = command@;
        command.push(resolved.arguments[i].clone());
        proof {
            assert(text::views(command@) =~= text::views(before).push(resolved.arguments@[i as int]@));
            assert(text::views(resolved.arguments@).take(i + 1) =~= text::views(resolved.arguments@).take(i as int).push(
                resolved.arguments@[i as int]@,
            ));
        }
        i = i + 1;
    }
    proof {
        assert(text::views(resolved.arguments@).take(resolved.arguments@.len() as int) =~= text::views(resolved.arguments@));
    }
    let ghost head = text::views(command@);
    let mut j: usize = 0;
    while j < words.len()
        invariant
            0 <= j <= words@.len(),
            text::views(command@) == head + text::views(words@).take(j as int),
        decreases words.len() - j,
    {
        let ghost before = command@;
        command.push(words[j].clone());
        proof {
            assert(text::views(command@) =~= text::views(before).push(words@[j as int]@));
            assert(text::views(words@).take(j + 1) =~= text::views(words@).take(j as int).push(words@[j as int]@));
        }
        j = j + 1;
    }
    proof {
        assert(text::views(words@).take(words@.len() as int) =~= text::views(words@));
    }
    let trimmed_workdir = text::trim_str(state.workdir.as_str());
    let workdir = if trimmed_workdir.as_str().is_empty() {
        match resolved.workdir {
            Some(w) => w,
            None => match program_parent {
                Some(p) => p,
                None => match target_parent {
                    Some(t) => t,
                    None => text::to_owned("."),
                },
            },
        }
    } else {
        normalize_path(state.workdir.as_str())
    };
    Ok(LaunchPlan {
        listen,
        no_tls_decryption: !state.https_inspection,
        only_http1: state.only_http1,
        ca_dir: optional_path(state.ca_dir.as_str()),
        max_body_size,
        redact: state.redact,
        show_secrets: state.show_secrets,
        save_session: optional_path(state.save_session.as_str()),
        allow_external: false,
        workdir,
        env: parse_env_overrides(state.env.as_str()),
        no_extra_ca_env: !state.extra_ca_env,
        tls_confirmed: state.https_inspection,
        command,
        process_tracking: resolved.process_tracking,
    })
}

/// What the program path of the form turned out to be on disk.
#[derive(Debug)]
pub enum StartCheck {
    Missing,
    /// A folder, with its launchable files or the error reading it.
    Folder(Result<Vec<LaunchOption>, String>),
    /// A file, launchable or not.
    File { launchable: bool },
}

/// Takes what the form's program path turned out to be; `target` is how the path
/// is shown. A launchable file lets the launch go on (`true`); a folder with
/// launchable files switches to the list of them; anything else says why not.
pub fn apply_start_check(state: &mut LauncherState, target: &str, check: StartCheck) -> (go: bool)
    ensures
        ({
            let label = text::join(launch_formats().map_values(|k: Seq<char>| launch_group_title_of(k)), ", "@);
            match check {
                StartCheck::Missing => !go && launcher_message(*old(state), *final(state), "Path does not exist: "@ + target@),
                StartCheck::File { launchable } => if launchable {
                    go && *final(state) == *old(state)
                } else {
                    !go && launcher_message(
                        *old(state),
                        *final(state),
                        "Target must be a supported launch file ("@ + label + ") or a folder."@,
                    )
                },
                StartCheck::Folder(Err(e)) => !go && launcher_message(*old(state), *final(state), e@),
                StartCheck::Folder(Ok(options)) => if options@.len() == 0 {
                    !go && launcher_message(
                        *old(state),
                        *final(state),
                        "No supported launch files ("@ + label + ") found in "@ + target@ + "."@,
                    )
                } else {
                    &&& !go
                    &&& final(state).launch_options@ == options@
                    &&& final(state).launch_selected == 0
                    &&& final(state).launch_filter@.len() == 0
                    &&& final(state).screen == LauncherScreen::LaunchSelect
                    &&& final(state).message@ == "Folder selected. Filter by name, then launch a file."@
                    &&& *final(state) == (LauncherState {
                        launch_options: final(state).launch_options,
                        launch_selected: 0,
                        launch_filter: final(state).launch_filter,
                        screen: LauncherScreen::LaunchSelect,
                        message: final(state).message,
                        ..*old(state)
                    })
                },
            }
        }),
{
    match check {
        StartCheck::Missing => {
            state.message = joined2("Path does not exist: ", target);
            false
        },
        StartCheck::File { launchable } => {
            if launchable {
                true
            } else {
                let label = supported_launch_formats_label();
                state.message = joined("Target must be a supported launch file (", label.as_str(), ") or a folder.");
                false
            }
        },
        StartCheck::Folder(Err(e)) => {
            state.message = e;
            false
        },
        StartCheck::Folder(Ok(options)) => {
            if options.len() == 0 {
                let label = supported_launch_formats_label();
                let mut m = joined("No supported launch files (", label.as_str(), ") found in ");
                text::push_str(&mut m, target);
                text::push_str(&mut m, ".");
                state.message = m;
            } else {
                state.launch_options = options;
                state.launch_selected = 0;
                state.launch_filter = String::new();
                state.screen = LauncherScreen::LaunchSelect;
                state.message = text::to_owned("Folder selected. Filter by name, then launch a file.");
            }
            false
        },
    }
}

/// The error when the chosen path is not a file that can be launched.
pub fn not_launchable_error(target: &str) -> (r: String)
    ensures
        r@ == "target is not a supported launch file ("@ + text::join(
            launch_formats().map_values(|k: Seq<char>| launch_group_title_of(k)),
            ", "@,
        ) + "): "@ + target@,
{
    let label = supported_launch_formats_label();
    let mut r = joined("target is not a supported launch file (", label.as_str(), "): ");
    text::push_str(&mut r, target);
    r
}

} // verus!
