//! What holds between writing a desktop entry and reading it back.
use vstd::prelude::*;
use crate::desktop_file_builder::{
    bool_text, content_lines, content_of, exec_line_value, field_of, generated, has_marker_line,
    opt_line, parsed,
    EntryFields,
};
use vstd::seq_lib::lemma_concat_associative;
use crate::text::{
    join_with, first_with_prefix, has_prefix, lacks, lemma_split_concat, lemma_split_join, split_on,
};

verus! {

/// `k` is a key followed by `=`, with no other `=` in it.
pub open spec fn is_key(k: Seq<char>) -> bool {
    &&& k.len() >= 1
    &&& k.last() == '='
    &&& forall|i: int| 0 <= i < k.len() - 1 ==> k[i] != '='
}

/// The lines `key` + value, in the order of the keys, for the values that
/// are present.
pub open spec fn keyed_lines(ks: Seq<Seq<char>>, vs: Seq<Option<Seq<char>>>) -> Seq<Seq<char>>
    decreases ks.len(),
{
    if ks.len() == 0 || vs.len() == 0 {
        Seq::<Seq<char>>::empty()
    } else {
        opt_line(ks[0], vs[0]) + keyed_lines(ks.drop_first(), vs.drop_first())
    }
}

/// The value of the first present key equal to `p`, else what `tail`
/// gives for `p`.
pub open spec fn keyed_find(
    ks: Seq<Seq<char>>,
    vs: Seq<Option<Seq<char>>>,
    p: Seq<char>,
    tail: Seq<Seq<char>>,
) -> Option<Seq<char>>
    decreases ks.len(),
{
    if ks.len() == 0 || vs.len() == 0 {
        first_with_prefix(tail, p)
    } else if ks[0] == p && vs[0] is Some {
        vs[0]
    } else {
        keyed_find(ks.drop_first(), vs.drop_first(), p, tail)
    }
}

proof fn lemma_key_prefix(k: Seq<char>, v: Seq<char>, p: Seq<char>)
    requires
        is_key(k),
        is_key(p),
    ensures
        has_prefix(k + v, p) <==> k == p,
{
    let s = k + v;
    if k == p {
        assert(s.subrange(0, p.len() as int) == p);
    }
    if has_prefix(s, p) {
        if p.len() < k.len() {
            assert(s.subrange(0, p.len() as int)[p.len() - 1] == s[p.len() - 1]);
            assert(false);
        } else if p.len() > k.len() {
            assert(s.subrange(0, p.len() as int)[k.len() - 1] == s[k.len() - 1]);
            assert(false);
        } else {
            assert(s.subrange(0, p.len() as int) == k);
        }
    }
}

proof fn lemma_keyed_lookup(
    ks: Seq<Seq<char>>,
    vs: Seq<Option<Seq<char>>>,
    p: Seq<char>,
    tail: Seq<Seq<char>>,
)
    requires
        is_key(p),
        forall|j: int| 0 <= j < ks.len() ==> is_key(#[trigger] ks[j]),
    ensures
        first_with_prefix(keyed_lines(ks, vs) + tail, p) == keyed_find(ks, vs, p, tail),
    decreases ks.len(),
{
    if ks.len() == 0 || vs.len() == 0 {
        assert(keyed_lines(ks, vs) + tail == tail);
    } else {
        let rest = keyed_lines(ks.drop_first(), vs.drop_first());
        assert forall|j: int| 0 <= j < ks.drop_first().len() implies is_key(
            #[trigger] ks.drop_first()[j],
        ) by {
            assert(ks.drop_first()[j] == ks[j + 1]);
        }
        lemma_keyed_lookup(ks.drop_first(), vs.drop_first(), p, tail);
        assert(is_key(ks[0]));
        match vs[0] {
            Some(v) => {
                let all = keyed_lines(ks, vs) + tail;
                assert(all == seq![ks[0] + v] + (rest + tail));
                assert(all[0] == ks[0] + v);
                assert(all.drop_first() == rest + tail);
                lemma_key_prefix(ks[0], v, p);
                if ks[0] == p {
                    assert((ks[0] + v).subrange(p.len() as int, (ks[0] + v).len() as int) == v);
                }
            },
            None => {
                assert(keyed_lines(ks, vs) + tail == rest + tail);
            },
        }
    }
}

proof fn lemma_keyed_lines_lack(ks: Seq<Seq<char>>, vs: Seq<Option<Seq<char>>>, c: char)
    requires
        forall|j: int| 0 <= j < ks.len() ==> lacks(#[trigger] ks[j], c),
        forall|j: int| 0 <= j < vs.len() && (#[trigger] vs[j]) is Some ==> lacks(vs[j]->0, c),
    ensures
        forall|j: int|
            0 <= j < keyed_lines(ks, vs).len() ==> lacks(#[trigger] keyed_lines(ks, vs)[j], c),
    decreases ks.len(),
{
    if ks.len() > 0 && vs.len() > 0 {
        let ks1 = ks.drop_first();
        let vs1 = vs.drop_first();
        assert forall|j: int| 0 <= j < ks1.len() implies lacks(#[trigger] ks1[j], c) by {
            assert(ks1[j] == ks[j + 1]);
        }
        assert forall|j: int| 0 <= j < vs1.len() && (#[trigger] vs1[j]) is Some implies lacks(
            vs1[j]->0,
            c,
        ) by {
            assert(vs1[j] == vs[j + 1]);
        }
        lemma_keyed_lines_lack(ks1, vs1, c);
        assert(lacks(ks[0], c));
        let head = opt_line(ks[0], vs[0]);
        let rest = keyed_lines(ks1, vs1);
        assert forall|j: int| 0 <= j < (head + rest).len() implies lacks(
            #[trigger] (head + rest)[j],
            c,
        ) by {
            if j < head.len() {
                let v = vs[0]->0;
                assert(vs[0] is Some);
                assert(lacks(v, c));
                assert((head + rest)[j] == ks[0] + v);
            } else {
                assert((head + rest)[j] == rest[j - head.len()]);
            }
        }
    }
}

/// The keys of a desktop entry, in the order they are written.
pub open spec fn entry_keys() -> Seq<Seq<char>> {
    seq![
        "Type="@,
        "Version="@,
        "Name="@,
        "Comment="@,
        "Path="@,
        "Exec="@,
        "Icon="@,
        "Terminal="@,
        "Categories="@,
    ]
}

/// The values written for the keys of `entry_keys`, in the same order.
pub open spec fn entry_values(m: EntryFields) -> Seq<Option<Seq<char>>> {
    seq![
        m.type_,
        m.version,
        m.name,
        m.comment,
        m.path,
        match m.exec_ {
            Some(e) => Some(exec_line_value(e, m.no_sandbox)),
            None => None,
        },
        m.icon,
        match m.terminal {
            Some(b) => Some(bool_text(b)),
            None => None,
        },
        m.categories,
    ]
}

proof fn lemma_keys()
    ensures
        forall|j: int| 0 <= j < entry_keys().len() ==> is_key(#[trigger] entry_keys()[j]),
        forall|j: int| 0 <= j < entry_keys().len() ==> lacks(#[trigger] entry_keys()[j], '\n'),
        forall|i: int, j: int|
            0 <= i < entry_keys().len() && 0 <= j < entry_keys().len() && i != j ==> #[trigger] entry_keys()[i]
                != #[trigger] entry_keys()[j],
{
    reveal_strlit("Type=");
    reveal_strlit("Version=");
    reveal_strlit("Name=");
    reveal_strlit("Comment=");
    reveal_strlit("Path=");
    reveal_strlit("Exec=");
    reveal_strlit("Icon=");
    reveal_strlit("Terminal=");
    reveal_strlit("Categories=");
    let ks = entry_keys();
    assert forall|i: int, j: int| 0 <= i < ks.len() && 0 <= j < ks.len() && i != j implies #[trigger] ks[i]
        != #[trigger] ks[j] by {
        if ks[i] == ks[j] {
            assert(ks[i][0] == ks[j][0]);
            assert(ks[i][1] == ks[j][1]);
        }
    }
}

proof fn lemma_keyed_step(ks: Seq<Seq<char>>, vs: Seq<Option<Seq<char>>>, n: int)
    requires
        0 <= n < ks.len(),
        ks.len() == vs.len(),
    ensures
        keyed_lines(ks.skip(n), vs.skip(n)) == opt_line(ks[n], vs[n]) + keyed_lines(
            ks.skip(n + 1),
            vs.skip(n + 1),
        ),
{
    assert(ks.skip(n).drop_first() == ks.skip(n + 1));
    assert(vs.skip(n).drop_first() == vs.skip(n + 1));
}

proof fn lemma_content_lines(m: EntryFields)
    ensures
        content_lines(m) == seq!["[Desktop Entry]"@] + keyed_lines(entry_keys(), entry_values(m))
            + seq!["X-AppHub=true"@],
{
    let ks = entry_keys();
    let vs = entry_values(m);
    let a0 = seq!["[Desktop Entry]"@];
    assert(ks.skip(0) == ks);
    assert(vs.skip(0) == vs);
    lemma_keyed_step(ks, vs, 0);
    lemma_concat_associative(a0, opt_line(ks[0], vs[0]), keyed_lines(ks.skip(1), vs.skip(1)));
    let a1 = a0 + opt_line(ks[0], vs[0]);
    lemma_keyed_step(ks, vs, 1);
    lemma_concat_associative(a1, opt_line(ks[1], vs[1]), keyed_lines(ks.skip(2), vs.skip(2)));
    let a2 = a1 + opt_line(ks[1], vs[1]);
    lemma_keyed_step(ks, vs, 2);
    lemma_concat_associative(a2, opt_line(ks[2], vs[2]), keyed_lines(ks.skip(3), vs.skip(3)));
    let a3 = a2 + opt_line(ks[2], vs[2]);
    lemma_keyed_step(ks, vs, 3);
    lemma_concat_associative(a3, opt_line(ks[3], vs[3]), keyed_lines(ks.skip(4), vs.skip(4)));
    let a4 = a3 + opt_line(ks[3], vs[3]);
    lemma_keyed_step(ks, vs, 4);
    lemma_concat_associative(a4, opt_line(ks[4], vs[4]), keyed_lines(ks.skip(5), vs.skip(5)));
    let a5 = a4 + opt_line(ks[4], vs[4]);
    lemma_keyed_step(ks, vs, 5);
    lemma_concat_associative(a5, opt_line(ks[5], vs[5]), keyed_lines(ks.skip(6), vs.skip(6)));
    let a6 = a5 + opt_line(ks[5], vs[5]);
    lemma_keyed_step(ks, vs, 6);
    lemma_concat_associative(a6, opt_line(ks[6], vs[6]), keyed_lines(ks.skip(7), vs.skip(7)));
    let a7 = a6 + opt_line(ks[6], vs[6]);
    lemma_keyed_step(ks, vs, 7);
    lemma_concat_associative(a7, opt_line(ks[7], vs[7]), keyed_lines(ks.skip(8), vs.skip(8)));
    let a8 = a7 + opt_line(ks[7], vs[7]);
    lemma_keyed_step(ks, vs, 8);
    lemma_concat_associative(a8, opt_line(ks[8], vs[8]), keyed_lines(ks.skip(9), vs.skip(9)));
    let a9 = a8 + opt_line(ks[8], vs[8]);
    assert(keyed_lines(ks.skip(9), vs.skip(9)) == Seq::<Seq<char>>::empty());
    assert(a9 + Seq::<Seq<char>>::empty() == a9);
    assert(opt_line(ks[0], vs[0]) == opt_line("Type="@, m.type_));
    assert(opt_line(ks[1], vs[1]) == opt_line("Version="@, m.version));
    assert(opt_line(ks[2], vs[2]) == opt_line("Name="@, m.name));
    assert(opt_line(ks[3], vs[3]) == opt_line("Comment="@, m.comment));
    assert(opt_line(ks[4], vs[4]) == opt_line("Path="@, m.path));
    assert(opt_line(ks[6], vs[6]) == opt_line("Icon="@, m.icon));
    assert(opt_line(ks[8], vs[8]) == opt_line("Categories="@, m.categories));
}

proof fn lemma_keyed_find_absent(
    ks: Seq<Seq<char>>,
    vs: Seq<Option<Seq<char>>>,
    p: Seq<char>,
    tail: Seq<Seq<char>>,
)
    requires
        forall|j: int| 0 <= j < ks.len() ==> #[trigger] ks[j] != p,
    ensures
        keyed_find(ks, vs, p, tail) == first_with_prefix(tail, p),
    decreases ks.len(),
{
    if ks.len() > 0 && vs.len() > 0 {
        assert(ks[0] != p);
        assert forall|j: int| 0 <= j < ks.drop_first().len() implies #[trigger] ks.drop_first()[j]
            != p by {
            assert(ks.drop_first()[j] == ks[j + 1]);
        }
        lemma_keyed_find_absent(ks.drop_first(), vs.drop_first(), p, tail);
    }
}

proof fn lemma_keyed_find_at(
    ks: Seq<Seq<char>>,
    vs: Seq<Option<Seq<char>>>,
    i: int,
    tail: Seq<Seq<char>>,
)
    requires
        ks.len() == vs.len(),
        0 <= i < ks.len(),
        forall|j: int| 0 <= j < ks.len() && j != i ==> #[trigger] ks[j] != ks[i],
    ensures
        keyed_find(ks, vs, ks[i], tail) == match vs[i] {
            Some(v) => Some(v),
            None => first_with_prefix(tail, ks[i]),
        },
    decreases ks.len(),
{
    let ks1 = ks.drop_first();
    let vs1 = vs.drop_first();
    if i == 0 {
        assert forall|j: int| 0 <= j < ks1.len() implies #[trigger] ks1[j] != ks[0] by {
            assert(ks1[j] == ks[j + 1]);
        }
        lemma_keyed_find_absent(ks1, vs1, ks[0], tail);
    } else {
        assert(ks[0] != ks[i]);
        assert(ks1[i - 1] == ks[i]);
        assert(vs1[i - 1] == vs[i]);
        assert forall|j: int| 0 <= j < ks1.len() && j != i - 1 implies #[trigger] ks1[j] != ks1[i
            - 1] by {
            assert(ks1[j] == ks[j + 1]);
        }
        lemma_keyed_find_at(ks1, vs1, i - 1, tail);
    }
}

/// A present value holds no `c`.
pub open spec fn lacks_opt(o: Option<Seq<char>>, c: char) -> bool {
    match o {
        Some(v) => lacks(v, c),
        None => true,
    }
}

/// No value of `m` holds a line break.
pub open spec fn single_line_values(m: EntryFields) -> bool {
    &&& lacks_opt(m.type_, '\n')
    &&& lacks_opt(m.version, '\n')
    &&& lacks_opt(m.name, '\n')
    &&& lacks_opt(m.comment, '\n')
    &&& lacks_opt(m.path, '\n')
    &&& lacks_opt(m.exec_, '\n')
    &&& lacks_opt(m.icon, '\n')
    &&& lacks_opt(m.categories, '\n')
}

proof fn lemma_content_split(m: EntryFields)
    requires
        single_line_values(m),
    ensures
        split_on(content_of(m), '\n') == seq!["[Desktop Entry]"@] + (keyed_lines(
            entry_keys(),
            entry_values(m),
        ) + seq!["X-AppHub=true"@, Seq::<char>::empty()]),
{
    let ks = entry_keys();
    let vs = entry_values(m);
    let hdr = seq!["[Desktop Entry]"@];
    let mk = seq!["X-AppHub=true"@];
    let k = keyed_lines(ks, vs);
    lemma_keys();
    reveal_strlit(" --no-sandbox");
    reveal_strlit("true");
    reveal_strlit("false");
    reveal_strlit("[Desktop Entry]");
    reveal_strlit("X-AppHub=true");
    assert forall|j: int| 0 <= j < vs.len() && (#[trigger] vs[j]) is Some implies lacks(
        vs[j]->0,
        '\n',
    ) by {
        if j == 5 {
            let e = m.exec_->0;
            let x = exec_line_value(e, m.no_sandbox);
            assert forall|q: int| 0 <= q < x.len() implies x[q] != '\n' by {
                if m.no_sandbox == Some(true) && q >= e.len() {
                    assert(x[q] == " --no-sandbox"@[q - e.len()]);
                }
            }
        }
    }
    lemma_keyed_lines_lack(ks, vs, '\n');
    lemma_content_lines(m);
    let l = content_lines(m);
    assert forall|j: int| 0 <= j < l.len() implies lacks(#[trigger] l[j], '\n') by {
        if j > 0 && j < l.len() - 1 {
            assert(l[j] == k[j - 1]);
        }
    }
    lemma_split_join(l, '\n');
    lemma_split_concat(join_with(l, seq!['\n']), Seq::<char>::empty(), '\n');
    assert(join_with(l, seq!['\n']) + seq!['\n'] + Seq::<char>::empty() == content_of(m));
    assert(split_on(Seq::<char>::empty(), '\n') == seq![Seq::<char>::empty()]);
    assert(l + seq![Seq::<char>::empty()] == hdr + (k + seq!["X-AppHub=true"@, Seq::<char>::empty()]));
}

proof fn lemma_lookup_key(m: EntryFields, i: int)
    requires
        single_line_values(m),
        0 <= i < 9,
    ensures
        field_of(content_of(m), entry_keys()[i]) == entry_values(m)[i],
{
    let ks = entry_keys();
    let vs = entry_values(m);
    let p = ks[i];
    let tail = seq!["X-AppHub=true"@, Seq::<char>::empty()];
    let k = keyed_lines(ks, vs);
    let lines = seq!["[Desktop Entry]"@] + (k + tail);
    lemma_content_split(m);
    lemma_keys();
    reveal_strlit("[Desktop Entry]");
    reveal_strlit("X-AppHub=");
    reveal_strlit("true");
    reveal_strlit("X-AppHub=true");
    reveal_strlit("Type=");
    reveal_strlit("Version=");
    reveal_strlit("Name=");
    reveal_strlit("Comment=");
    reveal_strlit("Path=");
    reveal_strlit("Exec=");
    reveal_strlit("Icon=");
    reveal_strlit("Terminal=");
    reveal_strlit("Categories=");
    assert(is_key(p));
    assert(lines[0] == "[Desktop Entry]"@);
    if has_prefix(lines[0], p) {
        assert(lines[0].subrange(0, p.len() as int)[0] == p[0]);
    }
    assert(lines.drop_first() == k + tail);
    assert(!has_prefix(lines[0], p));
    assert(first_with_prefix(lines, p) == first_with_prefix(k + tail, p));
    lemma_keyed_lookup(ks, vs, p, tail);
    lemma_keyed_find_at(ks, vs, i, tail);
    if vs[i] is None {
        assert(is_key("X-AppHub="@));
        assert("X-AppHub="@ != p) by {
            assert("X-AppHub="@[0] != p[0]);
        }
        assert("X-AppHub="@ + "true"@ == "X-AppHub=true"@);
        lemma_key_prefix("X-AppHub="@, "true"@, p);
        assert(tail[0] == "X-AppHub=true"@);
        assert(tail.drop_first() == seq![Seq::<char>::empty()]);
        assert(seq![Seq::<char>::empty()].drop_first() == Seq::<Seq<char>>::empty());
        assert(!has_prefix(tail[0], p));
        assert(!has_prefix(Seq::<char>::empty(), p));
        let one = seq![Seq::<char>::empty()];
        assert(one[0] == Seq::<char>::empty());
        assert(first_with_prefix(one.drop_first(), p) is None);
        assert(first_with_prefix(one, p) is None);
        assert(first_with_prefix(tail, p) is None);
    }
}

/// The record that reading back the text written for `m` gives: every
/// value as written, the command as it stands on its line, and no sandbox
/// setting, which the text carries only inside the command.
pub open spec fn read_back(m: EntryFields) -> EntryFields {
    EntryFields {
        exec_: match m.exec_ {
            Some(e) => Some(exec_line_value(e, m.no_sandbox)),
            None => None,
        },
        no_sandbox: None,
        ..m
    }
}

/// Writing an entry that has a type, a name and a command, and no line
/// break in any value, succeeds; reading the text back, whether the marker
/// line is required or not, gives the same values (see `read_back`).
pub proof fn lemma_write_then_read(m: EntryFields, require_marker: bool)
    requires
        m.type_ is Some,
        m.name is Some,
        m.exec_ is Some,
        single_line_values(m),
    ensures
        generated(m) == Ok::<Seq<char>, Seq<char>>(content_of(m)),
        parsed(content_of(m), require_marker) == Ok::<EntryFields, Seq<char>>(read_back(m)),
{
    let text = content_of(m);
    let ks = entry_keys();
    let vs = entry_values(m);
    lemma_lookup_key(m, 0);
    lemma_lookup_key(m, 1);
    lemma_lookup_key(m, 2);
    lemma_lookup_key(m, 3);
    lemma_lookup_key(m, 4);
    lemma_lookup_key(m, 5);
    lemma_lookup_key(m, 6);
    lemma_lookup_key(m, 7);
    lemma_lookup_key(m, 8);
    reveal_strlit("true");
    reveal_strlit("false");
    if m.terminal == Some(false) {
        assert(bool_text(false) != "true"@) by {
            assert(bool_text(false).len() != "true"@.len());
        }
    }
    lemma_content_split(m);
    let k = keyed_lines(ks, vs);
    let lines = split_on(text, '\n');
    assert(lines[1 + k.len() as int] == "X-AppHub=true"@);
    assert(has_marker_line(text));
}

/// Writing fails whenever the type, the name or the command is missing,
/// whatever the other values are.
pub proof fn lemma_missing_mandatory_fails(m: EntryFields)
    requires
        m.type_ is None || m.name is None || m.exec_ is None,
    ensures
        generated(m) is Err,
{
}

/// Categories set from a non-empty list whose items hold no `;`, written
/// and read back, give the same list in the same order when the value read
/// is cut at each `;`.
pub proof fn lemma_categories_round_trip(
    m: EntryFields,
    parts: Seq<Seq<char>>,
    require_marker: bool,
)
    requires
        m.type_ is Some,
        m.name is Some,
        m.exec_ is Some,
        single_line_values(m),
        m.categories == Some(join_with(parts, ";"@)),
        parts.len() >= 1,
        forall|k: int| 0 <= k < parts.len() ==> lacks(#[trigger] parts[k], ';'),
    ensures
        parsed(content_of(m), require_marker) is Ok,
        parsed(content_of(m), require_marker)->Ok_0.categories == m.categories,
        split_on(parsed(content_of(m), require_marker)->Ok_0.categories->0, ';') == parts,
{
    lemma_write_then_read(m, require_marker);
    reveal_strlit(";");
    assert(";"@ == seq![';']);
    lemma_split_join(parts, ';');
}

/// The terminal flag read from a text is present exactly when a line starts
/// with `Terminal=`, and then it is set only when the rest of that line is
/// exactly `true`.
pub proof fn lemma_terminal_flag(text: Seq<char>, require_marker: bool)
    requires
        parsed(text, require_marker) is Ok,
    ensures
        parsed(text, require_marker)->Ok_0.terminal == match field_of(text, "Terminal="@) {
            Some(v) => Some(v == "true"@),
            None => None,
        },
{
}

/// The written text holds the command with the flag that switches the
/// sandbox off exactly when that setting is present and true; absent or
/// false, the command stands unchanged.
pub proof fn lemma_exec_flag(m: EntryFields)
    requires
        m.type_ is Some,
        m.name is Some,
        m.exec_ is Some,
        single_line_values(m),
    ensures
        field_of(content_of(m), "Exec="@) == Some(
            if m.no_sandbox == Some(true) {
                m.exec_->0 + " --no-sandbox"@
            } else {
                m.exec_->0
            },
        ),
{
    lemma_lookup_key(m, 5);
}

} // verus!
