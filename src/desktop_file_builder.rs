//! Desktop entries: a record of the recognised keys of a `.desktop` file,
//! built field by field, written out as text, and read back from text.
use vstd::prelude::*;
use crate::text::{
    chars_of, first_value, same_text, first_with_prefix, has_line, join_text, join_with, lemma_join_split,
    split_bounds, split_on, split_text, views,
};

verus! {

/// What a desktop entry holds, as mathematical values: each key either
/// absent or with its text.
pub struct EntryFields {
    pub type_: Option<Seq<char>>,
    pub version: Option<Seq<char>>,
    pub name: Option<Seq<char>>,
    pub comment: Option<Seq<char>>,
    pub path: Option<Seq<char>>,
    pub exec_: Option<Seq<char>>,
    pub icon: Option<Seq<char>>,
    pub terminal: Option<bool>,
    /// The categories as they stand in the file: joined by `;`.
    pub categories: Option<Seq<char>>,
    /// Whether the program is started with its sandbox switched off.
    pub no_sandbox: Option<bool>,
}

/// The text of an optional string.
pub open spec fn opt_view(o: Option<String>) -> Option<Seq<char>> {
    match o {
        Some(s) => Some(s@),
        None => None,
    }
}

/// The record with no key set.
pub open spec fn empty_fields() -> EntryFields {
    EntryFields {
        type_: None,
        version: None,
        name: None,
        comment: None,
        path: None,
        exec_: None,
        icon: None,
        terminal: None,
        categories: None,
        no_sandbox: None,
    }
}

/// The value written on the `Exec` line: the command, followed by the flag
/// that switches the sandbox off when that is asked for.
pub open spec fn exec_line_value(exec: Seq<char>, no_sandbox: Option<bool>) -> Seq<char> {
    if no_sandbox == Some(true) {
        exec + " --no-sandbox"@
    } else {
        exec
    }
}

/// How a flag is written.
pub open spec fn bool_text(b: bool) -> Seq<char> {
    if b {
        "true"@
    } else {
        "false"@
    }
}

/// The line `key` + value when the value is present, no line otherwise;
/// `key` ends with `=`.
pub open spec fn opt_line(key: Seq<char>, value: Option<Seq<char>>) -> Seq<Seq<char>> {
    match value {
        Some(v) => seq![key + v],
        None => Seq::<Seq<char>>::empty(),
    }
}

/// The lines of the file written for `m`, in their fixed order, without
/// their line breaks.
pub open spec fn content_lines(m: EntryFields) -> Seq<Seq<char>> {
    seq!["[Desktop Entry]"@] + opt_line("Type="@, m.type_) + opt_line("Version="@, m.version)
        + opt_line("Name="@, m.name) + opt_line("Comment="@, m.comment) + opt_line(
        "Path="@,
        m.path,
    ) + opt_line(
        "Exec="@,
        match m.exec_ {
            Some(e) => Some(exec_line_value(e, m.no_sandbox)),
            None => None,
        },
    ) + opt_line("Icon="@, m.icon) + opt_line(
        "Terminal="@,
        match m.terminal {
            Some(b) => Some(bool_text(b)),
            None => None,
        },
    ) + opt_line("Categories="@, m.categories) + seq!["X-AppHub=true"@]
}

/// The text of the file written for `m`: each line followed by a line break.
pub open spec fn content_of(m: EntryFields) -> Seq<char> {
    join_with(content_lines(m), seq!['\n']) + seq!['\n']
}

/// What writing `m` gives: its text, or the message naming the first
/// mandatory key that is missing.
pub open spec fn generated(m: EntryFields) -> Result<Seq<char>, Seq<char>> {
    if m.type_ is None {
        Err("Type field is mandatory"@)
    } else if m.name is None {
        Err("Name field is mandatory"@)
    } else if m.exec_ is None {
        Err("Exec field is mandatory"@)
    } else {
        Ok(content_of(m))
    }
}

/// The texts of a result.
pub open spec fn text_result<'a>(r: Result<String, &'a str>) -> Result<Seq<char>, Seq<char>> {
    match r {
        Ok(s) => Ok(s@),
        Err(e) => Err(e@),
    }
}

/// Appends `line` and a line break, and keeps `out` the text of the lines
/// so far.
fn push_line(out: &mut String, Ghost(lines): Ghost<Seq<Seq<char>>>, line: &str) -> (r: Ghost<
    Seq<Seq<char>>,
>)
    requires
        lines.len() >= 1,
        old(out)@ == join_with(lines, seq!['\n']) + seq!['\n'],
    ensures
        r@ == lines.push(line@),
        final(out)@ == join_with(r@, seq!['\n']) + seq!['\n'],
{
    out.append(line);
    out.append("\n");
    proof {
        reveal_strlit("\n");
        let l2 = lines.push(line@);
        assert(l2.drop_last() == lines);
    }
    Ghost(lines.push(line@))
}

/// Appends the line `key` + value when the value is present, and keeps
/// `out` the text of the lines so far.
fn push_opt_line(
    out: &mut String,
    Ghost(lines): Ghost<Seq<Seq<char>>>,
    key: &str,
    value: &Option<String>,
) -> (r: Ghost<Seq<Seq<char>>>)
    requires
        lines.len() >= 1,
        old(out)@ == join_with(lines, seq!['\n']) + seq!['\n'],
    ensures
        r@ == lines + opt_line(key@, opt_view(*value)),
        r@.len() >= 1,
        final(out)@ == join_with(r@, seq!['\n']) + seq!['\n'],
{
    match value {
        Some(v) => {
            let line = String::from_str(key).concat(v.as_str());
            let r = push_line(out, Ghost(lines), line.as_str());
            proof {
                assert(lines.push(line@) == lines + opt_line(key@, opt_view(*value)));
            }
            r
        },
        None => {
            proof {
                assert(lines == lines + opt_line(key@, opt_view(*value)));
            }
            Ghost(lines)
        },
    }
}

/// What follows `key` on the first line of `text` that starts with `key`.
pub open spec fn field_of(text: Seq<char>, key: Seq<char>) -> Option<Seq<char>> {
    first_with_prefix(split_on(text, '\n'), key)
}

/// One of the lines of `text` is exactly the line that marks entries
/// written by this library.
pub open spec fn has_marker_line(text: Seq<char>) -> bool {
    split_on(text, '\n').contains("X-AppHub=true"@)
}

/// The record read from `text`: each key from the first line that starts
/// with it and `=`; the terminal flag set only by the text `true`.
pub open spec fn parsed_fields(text: Seq<char>) -> EntryFields {
    EntryFields {
        type_: field_of(text, "Type="@),
        version: field_of(text, "Version="@),
        name: field_of(text, "Name="@),
        comment: field_of(text, "Comment="@),
        path: field_of(text, "Path="@),
        exec_: field_of(text, "Exec="@),
        icon: field_of(text, "Icon="@),
        terminal: match field_of(text, "Terminal="@) {
            Some(v) => Some(v == "true"@),
            None => None,
        },
        categories: field_of(text, "Categories="@),
        no_sandbox: None,
    }
}

/// What reading `text` gives: the record, or the message that the marker
/// line asked for is missing.
pub open spec fn parsed(text: Seq<char>, require_marker: bool) -> Result<EntryFields, Seq<char>> {
    if require_marker && !has_marker_line(text) {
        Err("Invalid .desktop file"@)
    } else {
        Ok(parsed_fields(text))
    }
}

/// The record and message of a result.
pub open spec fn entry_result<'a>(r: Result<DesktopFileBuilder, &'a str>) -> Result<
    EntryFields,
    Seq<char>,
> {
    match r {
        Ok(b) => Ok(b@),
        Err(e) => Err(e@),
    }
}

/// A desktop entry under construction.
pub struct DesktopFileBuilder {
    type_: Option<String>,
    version: Option<String>,
    name: Option<String>,
    comment: Option<String>,
    path: Option<String>,
    exec_: Option<String>,
    icon: Option<String>,
    terminal: Option<bool>,
    categories: Option<String>,
    no_sanbox: Option<bool>,
}

impl View for DesktopFileBuilder {
    type V = EntryFields;

    closed spec fn view(&self) -> EntryFields {
        EntryFields {
            type_: opt_view(self.type_),
            version: opt_view(self.version),
            name: opt_view(self.name),
            comment: opt_view(self.comment),
            path: opt_view(self.path),
            exec_: opt_view(self.exec_),
            icon: opt_view(self.icon),
            terminal: self.terminal,
            categories: opt_view(self.categories),
            no_sandbox: self.no_sanbox,
        }
    }
}

fn clone_opt(o: &Option<String>) -> (r: Option<String>)
    ensures
        opt_view(r) == opt_view(*o),
{
    match o {
        Some(s) => Some(s.clone()),
        None => None,
    }
}

impl DesktopFileBuilder {
    /// A builder with no key set.
    pub fn new() -> (r: Self)
        ensures
            r@ == empty_fields(),
    {
        Self {
            type_: None,
            version: None,
            name: None,
            comment: None,
            path: None,
            exec_: None,
            icon: None,
            terminal: None,
            categories: None,
            no_sanbox: None,
        }
    }

    /// Reads a desktop entry from the text of a `.desktop` file. With
    /// `is_app_hub_app`, the text must hold the marker line.
    pub fn from_desktop_entry_content(content: &str, is_app_hub_app: bool) -> (r: Result<
        Self,
        &'static str,
    >)
        ensures
            entry_result(r) == parsed(content@, is_app_hub_app),
    {
        let chars = chars_of(content);
        let lines = split_bounds(&chars, '\n');
        if is_app_hub_app && !has_line(&chars, &lines, "X-AppHub=true") {
            return Err("Invalid .desktop file");
        }
        let mut b = DesktopFileBuilder::new();
        if let Some(v) = first_value(content, &chars, &lines, "Type=") {
            b.set_type(v);
        }
        if let Some(v) = first_value(content, &chars, &lines, "Version=") {
            b.set_version(v);
        }
        if let Some(v) = first_value(content, &chars, &lines, "Name=") {
            b.set_name(v);
        }
        if let Some(v) = first_value(content, &chars, &lines, "Comment=") {
            b.set_comment(v);
        }
        if let Some(v) = first_value(content, &chars, &lines, "Path=") {
            b.set_path(v);
        }
        if let Some(v) = first_value(content, &chars, &lines, "Exec=") {
            b.set_exec(v);
        }
        if let Some(v) = first_value(content, &chars, &lines, "Icon=") {
            b.set_icon(v);
        }
        if let Some(v) = first_value(content, &chars, &lines, "Terminal=") {
            let is_true = same_text(v.as_str(), "true");
            b.set_terminal(is_true);
        }
        if let Some(v) = first_value(content, &chars, &lines, "Categories=") {
            let parts = split_text(v.as_str(), ';');
            proof {
                lemma_join_split(v@, ';');
                reveal_strlit(";");
                assert(";"@ == seq![';']);
            }
            b.set_categories(parts);
            proof {
                assert(b@.categories == Some(v@));
            }
        }
        proof {
            assert(b@ == parsed_fields(content@));
        }
        Ok(b)
    }

    /// Sets the `Type` key.
    pub fn set_type(&mut self, type_: String) -> (r: &mut Self)
        ensures
            r@ == (EntryFields { type_: Some(type_@), ..old(self)@ }),
            *final(self) == *final(r),
    {
        self.type_ = Some(type_);
        self
    }

    /// Sets the `Version` key.
    pub fn set_version(&mut self, version: String) -> (r: &mut Self)
        ensures
            r@ == (EntryFields { version: Some(version@), ..old(self)@ }),
            *final(self) == *final(r),
    {
        self.version = Some(version);
        self
    }

    /// Sets the `Name` key.
    pub fn set_name(&mut self, name: String) -> (r: &mut Self)
        ensures
            r@ == (EntryFields { name: Some(name@), ..old(self)@ }),
            *final(self) == *final(r),
    {
        self.name = Some(name);
        self
    }

    /// Sets the `Comment` key.
    pub fn set_comment(&mut self, comment: String) -> (r: &mut Self)
        ensures
            r@ == (EntryFields { comment: Some(comment@), ..old(self)@ }),
            *final(self) == *final(r),
    {
        self.comment = Some(comment);
        self
    }

    /// Sets the `Path` key: the working directory.
    pub fn set_path(&mut self, path: String) -> (r: &mut Self)
        ensures
            r@ == (EntryFields { path: Some(path@), ..old(self)@ }),
            *final(self) == *final(r),
    {
        self.path = Some(path);
        self
    }

    /// Sets the `Exec` key: the command that starts the program.
    pub fn set_exec(&mut self, exec: String) -> (r: &mut Self)
        ensures
            r@ == (EntryFields { exec_: Some(exec@), ..old(self)@ }),
            *final(self) == *final(r),
    {
        self.exec_ = Some(exec);
        self
    }

    /// Sets the `Icon` key.
    pub fn set_icon(&mut self, icon: String) -> (r: &mut Self)
        ensures
            r@ == (EntryFields { icon: Some(icon@), ..old(self)@ }),
            *final(self) == *final(r),
    {
        self.icon = Some(icon);
        self
    }

    /// Sets whether the program runs in a terminal.
    pub fn set_terminal(&mut self, terminal: bool) -> (r: &mut Self)
        ensures
            r@ == (EntryFields { terminal: Some(terminal), ..old(self)@ }),
            *final(self) == *final(r),
    {
        self.terminal = Some(terminal);
        self
    }

    /// Sets the categories, written joined by `;`.
    pub fn set_categories(&mut self, categories: Vec<String>) -> (r: &mut Self)
        ensures
            r@ == (EntryFields {
                categories: Some(join_with(views(categories@), ";"@)),
                ..old(self)@
            }),
            *final(self) == *final(r),
    {
        let categories = join_text(&categories, ";");
        self.categories = Some(categories);
        self
    }

    /// Sets whether the command is written with the flag that switches the sandbox off.
    pub fn set_no_sandbox(&mut self, no_sandbox: bool) -> (r: &mut Self)
        ensures
            r@ == (EntryFields { no_sandbox: Some(no_sandbox), ..old(self)@ }),
            *final(self) == *final(r),
    {
        self.no_sanbox = Some(no_sandbox);
        self
    }

    /// The text of the `.desktop` file, or which mandatory key is missing.
    pub fn generate_content_string(self) -> (r: Result<String, &'static str>)
        ensures
            text_result(r) == generated(self@),
    {
        if self.type_.is_none() {
            return Err("Type field is mandatory");
        }
        if self.name.is_none() {
            return Err("Name field is mandatory");
        }
        if self.exec_.is_none() {
            return Err("Exec field is mandatory");
        }
        let ghost m = self@;
        let exec_line: Option<String> = match &self.exec_ {
            Some(v) => match self.no_sanbox {
                Some(true) => Some(v.clone().concat(" --no-sandbox")),
                _ => Some(v.clone()),
            },
            None => None,
        };
        let terminal_line: Option<String> = match self.terminal {
            Some(true) => Some(String::from_str("true")),
            Some(false) => Some(String::from_str("false")),
            None => None,
        };
        let mut out = String::from_str("[Desktop Entry]\n");
        let ghost ls: Seq<Seq<char>> = seq!["[Desktop Entry]"@];
        proof {
            reveal_strlit("[Desktop Entry]\n");
            reveal_strlit("[Desktop Entry]");
            assert(out@ == join_with(ls, seq!['\n']) + seq!['\n']);
        }
        let Ghost(ls) = push_opt_line(&mut out, Ghost(ls), "Type=", &self.type_);
        let Ghost(ls) = push_opt_line(&mut out, Ghost(ls), "Version=", &self.version);
        let Ghost(ls) = push_opt_line(&mut out, Ghost(ls), "Name=", &self.name);
        let Ghost(ls) = push_opt_line(&mut out, Ghost(ls), "Comment=", &self.comment);
        let Ghost(ls) = push_opt_line(&mut out, Ghost(ls), "Path=", &self.path);
        let Ghost(ls) = push_opt_line(&mut out, Ghost(ls), "Exec=", &exec_line);
        let Ghost(ls) = push_opt_line(&mut out, Ghost(ls), "Icon=", &self.icon);
        let Ghost(ls) = push_opt_line(&mut out, Ghost(ls), "Terminal=", &terminal_line);
        let Ghost(ls) = push_opt_line(&mut out, Ghost(ls), "Categories=", &self.categories);
        let Ghost(ls) = push_line(&mut out, Ghost(ls), "X-AppHub=true");
        proof {
            assert(ls == content_lines(m));
        }
        Ok(out)
    }

    pub fn type_(&self) -> (r: Option<String>)
        ensures
            opt_view(r) == self@.type_,
    {
        clone_opt(&self.type_)
    }

    pub fn version(&self) -> (r: Option<String>)
        ensures
            opt_view(r) == self@.version,
    {
        clone_opt(&self.version)
    }

    pub fn name(&self) -> (r: Option<String>)
        ensures
            opt_view(r) == self@.name,
    {
        clone_opt(&self.name)
    }

    pub fn path(&self) -> (r: Option<String>)
        ensures
            opt_view(r) == self@.path,
    {
        clone_opt(&self.path)
    }

    pub fn exec(&self) -> (r: Option<String>)
        ensures
            opt_view(r) == self@.exec_,
    {
        clone_opt(&self.exec_)
    }

    pub fn comment(&self) -> (r: Option<String>)
        ensures
            opt_view(r) == self@.comment,
    {
        clone_opt(&self.comment)
    }

    pub fn icon(&self) -> (r: Option<String>)
        ensures
            opt_view(r) == self@.icon,
    {
        clone_opt(&self.icon)
    }

    pub fn terminal(&self) -> (r: Option<bool>)
        ensures
            r == self@.terminal,
    {
        self.terminal
    }

    pub fn categories(&self) -> (r: Option<String>)
        ensures
            opt_view(r) == self@.categories,
    {
        clone_opt(&self.categories)
    }

    pub fn no_sanbox(&self) -> (r: Option<bool>)
        ensures
            r == self@.no_sandbox,
    {
        self.no_sanbox
    }
}

} // verus!
