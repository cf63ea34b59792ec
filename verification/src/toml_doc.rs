//! Model of the configuration document: a list of named sections, each a
//! list of key/value entries where a value is a string, an integer or a
//! boolean.  The module gives the document an exact grammar: a parser from
//! text and a canonical pretty-printed rendering, both specified against
//! spec-level functions on character sequences.

use vstd::prelude::*;
use crate::text::{all_digits, dec_of, digits_val, find_char, is_digit, is_digit_char, is_ws, is_ws_char, parse_u64_digits, str_eq, trim, trim_spec, trim_start_spec, trim_end_spec, u64_to_string};

verus! {

/// A primitive value of the document.
pub enum TomlValue {
    S(String),
    I(i64),
    B(bool),
}

/// One `key = value` entry.
pub struct TomlKv {
    pub key: String,
    pub value: TomlValue,
}

/// One `[name]` section with its entries.
pub struct TomlSection {
    pub name: String,
    pub entries: Vec<TomlKv>,
}

/// A whole document: sections in textual order.
pub struct TomlDoc {
    pub sections: Vec<TomlSection>,
}

/// Mathematical counterpart of `TomlValue`.
#[verifier::ext_equal]
pub enum ValueV {
    S(Seq<char>),
    I(int),
    B(bool),
}

/// Mathematical counterpart of `TomlKv`.
#[verifier::ext_equal]
pub struct KvV {
    pub key: Seq<char>,
    pub value: ValueV,
}

/// Mathematical counterpart of `TomlSection`.
#[verifier::ext_equal]
pub struct SectionV {
    pub name: Seq<char>,
    pub entries: Seq<KvV>,
}

impl View for TomlValue {
    type V = ValueV;

    open spec fn view(&self) -> ValueV {
        match self {
            TomlValue::S(s) => ValueV::S(s@),
            TomlValue::I(i) => ValueV::I(*i as int),
            TomlValue::B(b) => ValueV::B(*b),
        }
    }
}

impl View for TomlKv {
    type V = KvV;

    open spec fn view(&self) -> KvV {
        KvV { key: self.key@, value: self.value@ }
    }
}

impl View for TomlSection {
    type V = SectionV;

    open spec fn view(&self) -> SectionV {
        SectionV {
            name: self.name@,
            entries: Seq::new(self.entries@.len(), |i: int| self.entries@[i]@),
        }
    }
}

impl View for TomlDoc {
    type V = Seq<SectionV>;

    open spec fn view(&self) -> Seq<SectionV> {
        Seq::new(self.sections@.len(), |i: int| self.sections@[i]@)
    }
}

// ---------------------------------------------------------------------------
// Grammar: values
// ---------------------------------------------------------------------------

/// The word `true`.
pub open spec fn true_chars() -> Seq<char> {
    seq!['t', 'r', 'u', 'e']
}

/// The word `false`.
pub open spec fn false_chars() -> Seq<char> {
    seq!['f', 'a', 'l', 's', 'e']
}

/// Characters allowed inside a quoted string: anything but a quote, a
/// backslash or a line break.
pub open spec fn string_content_clean(s: Seq<char>) -> bool {
    forall|i: int| 0 <= i < s.len() ==> #[trigger] s[i] != '"' && s[i] != '\\' && s[i] != '\n'
}

/// Largest magnitude of a negative 64-bit integer.
pub open spec fn i64_neg_limit() -> int {
    0x8000_0000_0000_0000
}

/// Integer literal: an optional minus sign and decimal digits, within the
/// 64-bit signed range.
pub open spec fn parse_int_spec(v: Seq<char>) -> Option<int> {
    if v.len() >= 1 && v[0] == '-' {
        let d = v.drop_first();
        if d.len() > 0 && all_digits(d) && digits_val(d) <= i64_neg_limit() {
            Some(-digits_val(d))
        } else {
            None
        }
    } else if v.len() > 0 && all_digits(v) && digits_val(v) < i64_neg_limit() {
        Some(digits_val(v))
    } else {
        None
    }
}

/// A trimmed value text: a double-quoted string without escapes, one of the
/// boolean words, or an integer literal.
pub open spec fn parse_value_spec(v: Seq<char>) -> Option<ValueV> {
    if v.len() >= 1 && v[0] == '"' {
        if v.len() >= 2 && v.last() == '"' && string_content_clean(
            v.subrange(1, v.len() - 1),
        ) {
            Some(ValueV::S(v.subrange(1, v.len() - 1)))
        } else {
            None
        }
    } else if v == true_chars() {
        Some(ValueV::B(true))
    } else if v == false_chars() {
        Some(ValueV::B(false))
    } else {
        match parse_int_spec(v) {
            Some(i) => Some(ValueV::I(i)),
            None => None,
        }
    }
}

// ---------------------------------------------------------------------------
// Grammar: lines
// ---------------------------------------------------------------------------

/// The state before any section header: an unnamed section that collects
/// top-level entries, which the schema merge ignores.
pub open spec fn root_section() -> SectionV {
    SectionV { name: seq![], entries: seq![] }
}

/// Add an entry to the section that is currently open.
pub open spec fn append_kv(st: Seq<SectionV>, kv: KvV) -> Seq<SectionV>
    recommends
        st.len() > 0,
{
    st.update(
        st.len() - 1,
        SectionV { name: st.last().name, entries: st.last().entries.push(kv) },
    )
}

/// Process one line of the document.  Blank lines and comment lines change
/// nothing; a header opens a section; a `key = value` line extends the open
/// section; anything else is a parse failure.
pub open spec fn step_line(st: Seq<SectionV>, line: Seq<char>) -> Option<Seq<SectionV>> {
    let t = trim_spec(line);
    if t.len() == 0 {
        Some(st)
    } else if t[0] == '#' {
        Some(st)
    } else if t[0] == '[' {
        if t.len() >= 2 && t.last() == ']' {
            Some(st.push(SectionV { name: t.subrange(1, t.len() - 1), entries: seq![] }))
        } else {
            None
        }
    } else {
        match find_char(t, '=') {
            Some(i) => {
                let key = trim_spec(t.subrange(0, i));
                let vtext = trim_spec(t.subrange(i + 1, t.len() as int));
                if key.len() == 0 {
                    None
                } else {
                    match parse_value_spec(vtext) {
                        Some(v) => Some(append_kv(st, KvV { key, value: v })),
                        None => None,
                    }
                }
            },
            None => None,
        }
    }
}

/// Split text into lines at `\n`; the final line needs no terminator.
pub open spec fn spec_lines(s: Seq<char>) -> Seq<Seq<char>>
    decreases s.len(),
{
    match find_char(s, '\n') {
        Some(i) => if 0 <= i < s.len() {
            seq![s.subrange(0, i)] + spec_lines(s.subrange(i + 1, s.len() as int))
        } else {
            seq![s]
        },
        None => seq![s],
    }
}

/// Fold the line processor over a list of lines.
pub open spec fn fold_lines(st: Option<Seq<SectionV>>, lines: Seq<Seq<char>>) -> Option<
    Seq<SectionV>,
>
    decreases lines.len(),
{
    if lines.len() == 0 {
        st
    } else {
        match st {
            None => None,
            Some(d) => fold_lines(step_line(d, lines[0]), lines.drop_first()),
        }
    }
}

/// Drop the unnamed section when it collected nothing.
pub open spec fn finish_doc(secs: Seq<SectionV>) -> Seq<SectionV>
    recommends
        secs.len() > 0,
{
    if secs[0].entries.len() == 0 {
        secs.drop_first()
    } else {
        secs
    }
}

/// The document denoted by a text, if it parses.
pub open spec fn parse_doc_spec(s: Seq<char>) -> Option<Seq<SectionV>> {
    match fold_lines(Some(seq![root_section()]), spec_lines(s)) {
        Some(secs) => Some(finish_doc(secs)),
        None => None,
    }
}

// ---------------------------------------------------------------------------
// Canonical rendering
// ---------------------------------------------------------------------------

/// Decimal rendering of a signed integer.
pub open spec fn dec_i64(i: int) -> Seq<char> {
    if i < 0 {
        seq!['-'] + dec_of(-i)
    } else {
        dec_of(i)
    }
}

/// Rendering of one value.
pub open spec fn render_value_spec(v: ValueV) -> Seq<char> {
    match v {
        ValueV::S(s) => seq!['"'] + s + seq!['"'],
        ValueV::I(i) => dec_i64(i),
        ValueV::B(b) => if b {
            true_chars()
        } else {
            false_chars()
        },
    }
}

/// Rendering of one entry line, newline included.
pub open spec fn render_kv_spec(kv: KvV) -> Seq<char> {
    kv.key + seq![' ', '=', ' '] + render_value_spec(kv.value) + seq!['\n']
}

/// Rendering of a list of entries.
pub open spec fn render_kvs_spec(entries: Seq<KvV>) -> Seq<char>
    decreases entries.len(),
{
    if entries.len() == 0 {
        seq![]
    } else {
        render_kv_spec(entries[0]) + render_kvs_spec(entries.drop_first())
    }
}

/// Rendering of one section: header, entries, then a blank separator line.
pub open spec fn render_section_spec(sec: SectionV) -> Seq<char> {
    seq!['['] + sec.name + seq![']', '\n'] + render_kvs_spec(sec.entries) + seq!['\n']
}

/// Rendering of a whole document.
pub open spec fn render_doc_spec(d: Seq<SectionV>) -> Seq<char>
    decreases d.len(),
{
    if d.len() == 0 {
        seq![]
    } else {
        render_section_spec(d[0]) + render_doc_spec(d.drop_first())
    }
}

// ---------------------------------------------------------------------------
// Lookup
// ---------------------------------------------------------------------------

/// Index of the first section with the given name.
pub open spec fn find_section(d: Seq<SectionV>, name: Seq<char>) -> Option<int>
    decreases d.len(),
{
    if d.len() == 0 {
        None
    } else if d[0].name == name {
        Some(0)
    } else {
        match find_section(d.drop_first(), name) {
            Some(i) => Some(i + 1),
            None => None,
        }
    }
}

/// Index of the first entry with the given key.
pub open spec fn find_kv(entries: Seq<KvV>, key: Seq<char>) -> Option<int>
    decreases entries.len(),
{
    if entries.len() == 0 {
        None
    } else if entries[0].key == key {
        Some(0)
    } else {
        match find_kv(entries.drop_first(), key) {
            Some(i) => Some(i + 1),
            None => None,
        }
    }
}

/// The value under `section.key`, if the document has it.
pub open spec fn lookup_spec(d: Seq<SectionV>, sec: Seq<char>, key: Seq<char>) -> Option<ValueV> {
    match find_section(d, sec) {
        Some(i) => match find_kv(d[i].entries, key) {
            Some(j) => Some(d[i].entries[j].value),
            None => None,
        },
        None => None,
    }
}


// ---------------------------------------------------------------------------
// Characterisations of the lookup functions
// ---------------------------------------------------------------------------

/// A first section with the name pins `find_section` down.
pub proof fn lemma_find_section_witness(d: Seq<SectionV>, name: Seq<char>, i: int)
    requires
        0 <= i < d.len(),
        d[i].name == name,
        forall|j: int| 0 <= j < i ==> (#[trigger] d[j]).name != name,
    ensures
        find_section(d, name) == Some(i),
    decreases d.len(),
{
    if d[0].name != name {
        let t = d.drop_first();
        assert(forall|j: int| 0 <= j < i - 1 ==> (#[trigger] t[j]).name != name) by {
            assert(forall|j: int| 0 <= j < i - 1 ==> t[j] == d[j + 1]);
        }
        lemma_find_section_witness(t, name, i - 1);
    }
}

/// Absence of the name pins `find_section` to `None`.
pub proof fn lemma_find_section_none(d: Seq<SectionV>, name: Seq<char>)
    requires
        forall|j: int| 0 <= j < d.len() ==> (#[trigger] d[j]).name != name,
    ensures
        find_section(d, name) is None,
    decreases d.len(),
{
    if d.len() > 0 {
        let t = d.drop_first();
        assert(forall|j: int| 0 <= j < t.len() ==> (#[trigger] t[j]).name != name) by {
            assert(forall|j: int| 0 <= j < t.len() ==> t[j] == d[j + 1]);
        }
        lemma_find_section_none(t, name);
    }
}

/// What `find_section` returns: the first index with the name.
pub proof fn lemma_find_section_props(d: Seq<SectionV>, name: Seq<char>)
    ensures
        match find_section(d, name) {
            Some(i) => 0 <= i < d.len() && d[i].name == name && forall|j: int|
                0 <= j < i ==> (#[trigger] d[j]).name != name,
            None => forall|j: int| 0 <= j < d.len() ==> (#[trigger] d[j]).name != name,
        },
    decreases d.len(),
{
    if d.len() > 0 && d[0].name != name {
        lemma_find_section_props(d.drop_first(), name);
        let t = d.drop_first();
        assert(forall|j: int| 1 <= j < d.len() ==> d[j] == t[j - 1]);
    }
}

/// What `find_kv` returns: the first index with the key.
pub proof fn lemma_find_kv_props(entries: Seq<KvV>, key: Seq<char>)
    ensures
        match find_kv(entries, key) {
            Some(i) => 0 <= i < entries.len() && entries[i].key == key && forall|j: int|
                0 <= j < i ==> (#[trigger] entries[j]).key != key,
            None => forall|j: int| 0 <= j < entries.len() ==> (#[trigger] entries[j]).key != key,
        },
    decreases entries.len(),
{
    if entries.len() > 0 && entries[0].key != key {
        let t = entries.drop_first();
        lemma_find_kv_props(t, key);
        assert(forall|j: int| 1 <= j < entries.len() ==> entries[j] == t[j - 1]);
    }
}

/// A first entry with the key pins `find_kv` down.
pub proof fn lemma_find_kv_witness(entries: Seq<KvV>, key: Seq<char>, i: int)
    requires
        0 <= i < entries.len(),
        entries[i].key == key,
        forall|j: int| 0 <= j < i ==> (#[trigger] entries[j]).key != key,
    ensures
        find_kv(entries, key) == Some(i),
    decreases entries.len(),
{
    if entries[0].key != key {
        let t = entries.drop_first();
        assert(forall|j: int| 0 <= j < i - 1 ==> (#[trigger] t[j]).key != key) by {
            assert(forall|j: int| 0 <= j < i - 1 ==> t[j] == entries[j + 1]);
        }
        lemma_find_kv_witness(t, key, i - 1);
    }
}

/// Absence of the key pins `find_kv` to `None`.
pub proof fn lemma_find_kv_none(entries: Seq<KvV>, key: Seq<char>)
    requires
        forall|j: int| 0 <= j < entries.len() ==> (#[trigger] entries[j]).key != key,
    ensures
        find_kv(entries, key) is None,
    decreases entries.len(),
{
    if entries.len() > 0 {
        let t = entries.drop_first();
        assert(forall|j: int| 0 <= j < t.len() ==> (#[trigger] t[j]).key != key) by {
            assert(forall|j: int| 0 <= j < t.len() ==> t[j] == entries[j + 1]);
        }
        lemma_find_kv_none(t, key);
    }
}

// ---------------------------------------------------------------------------
// Executable parser
// ---------------------------------------------------------------------------

/// Split a text into its lines.
pub fn split_lines<'a>(s: &'a str) -> (r: Vec<&'a str>)
    ensures
        r@.len() == spec_lines(s@).len(),
        forall|i: int| 0 <= i < r@.len() ==> (#[trigger] r@[i])@ == spec_lines(s@)[i],
{
    let mut acc: Vec<&'a str> = Vec::new();
    let mut rem: &'a str = s;
    loop
        invariant
            spec_lines(s@) == Seq::new(acc@.len(), |i: int| acc@[i]@) + spec_lines(rem@),
        decreases rem@.len(),
    {
        match crate::text::find_char_in(rem, '\n') {
            Some(i) => {
                proof {
                    crate::text::lemma_find_char_props(rem@, '\n');
                }
                let n = rem.unicode_len();
                let line = rem.substring_char(0, i);
                let rest = rem.substring_char(i + 1, n);
                acc.push(line);
                proof {
                    assert(spec_lines(rem@) == seq![rem@.subrange(0, i as int)] + spec_lines(
                        rem@.subrange(i + 1, rem@.len() as int),
                    ));
                    assert(spec_lines(s@) =~= Seq::new(acc@.len(), |k: int| acc@[k]@)
                        + spec_lines(rest@));
                }
                rem = rest;
            },
            None => {
                acc.push(rem);
                proof {
                    assert(spec_lines(rem@) == seq![rem@]);
                    assert(spec_lines(s@) =~= Seq::new(acc@.len(), |k: int| acc@[k]@));
                    assert(forall|i: int|
                        0 <= i < acc@.len() ==> (#[trigger] acc@[i])@ == spec_lines(s@)[i]);
                }
                return acc;
            },
        }
    }
}

/// Parse one trimmed value text.
pub fn parse_value_text(v: &str) -> (r: Option<TomlValue>)
    ensures
        match r {
            Some(tv) => parse_value_spec(v@) == Some(tv@),
            None => parse_value_spec(v@) is None,
        },
{
    let n = v.unicode_len();
    if n >= 1 && v.get_char(0) == '"' {
        if n >= 2 && v.get_char(n - 1) == '"' {
            let mut i: usize = 1;
            while i < n - 1
                invariant
                    1 <= i <= n - 1,
                    n == v@.len(),
                    n >= 2,
                    forall|j: int|
                        1 <= j < i ==> #[trigger] v@[j] != '"' && v@[j] != '\\' && v@[j] != '\n',
                decreases n - i,
            {
                let c = v.get_char(i);
                if c == '"' || c == '\\' || c == '\n' {
                    assert(!string_content_clean(v@.subrange(1, n - 1))) by {
                        assert(v@.subrange(1, n - 1)[i - 1] == v@[i as int]);
                    }
                    return None;
                }
                i = i + 1;
            }
            let inner = v.substring_char(1, n - 1);
            assert(string_content_clean(inner@)) by {
                assert(forall|j: int|
                    0 <= j < inner@.len() ==> inner@[j] == v@[j + 1]);
            }
            Some(TomlValue::S(inner.to_owned()))
        } else {
            None
        }
    } else if str_eq(v, "true") {
        proof {
            reveal_strlit("true");
            assert("true"@ =~= true_chars());
        }
        Some(TomlValue::B(true))
    } else if str_eq(v, "false") {
        proof {
            reveal_strlit("false");
            assert("false"@ =~= false_chars());
        }
        Some(TomlValue::B(false))
    } else {
        proof {
            reveal_strlit("true");
            reveal_strlit("false");
            assert("true"@ =~= true_chars());
            assert("false"@ =~= false_chars());
            assert(v@ != true_chars() && v@ != false_chars());
        }
        if n >= 1 && v.get_char(0) == '-' {
            let rest = v.substring_char(1, n);
            proof {
                assert(rest@ =~= v@.drop_first());
            }
            match parse_u64_digits(rest) {
                Some(mag) => {
                    if mag <= 0x8000_0000_0000_0000u64 {
                        let val: i64 = if mag == 0x8000_0000_0000_0000u64 {
                            i64::MIN
                        } else {
                            -(mag as i64)
                        };
                        Some(TomlValue::I(val))
                    } else {
                        None
                    }
                },
                None => {
                    proof {
                        if all_digits(v@.drop_first()) && v@.drop_first().len() > 0 {
                            crate::text::lemma_digits_val_nonneg(v@.drop_first());
                        }
                    }
                    None
                },
            }
        } else {
            match parse_u64_digits(v) {
                Some(mag) => {
                    if mag <= 0x7fff_ffff_ffff_ffffu64 {
                        Some(TomlValue::I(mag as i64))
                    } else {
                        None
                    }
                },
                None => None,
            }
        }
    }
}

/// Apply one line of text to a document under construction.  Returns false
/// on a malformed line.
fn apply_line(doc: &mut TomlDoc, line: &str) -> (ok: bool)
    requires
        old(doc)@.len() > 0,
    ensures
        ok ==> step_line(old(doc)@, line@) == Some(final(doc)@) && final(doc)@.len() > 0,
        !ok ==> step_line(old(doc)@, line@) is None && final(doc)@ == old(doc)@,
{
    let t = trim(line);
    let n = t.unicode_len();
    if n == 0 {
        return true;
    }
    let c0 = t.get_char(0);
    if c0 == '#' {
        return true;
    }
    if c0 == '[' {
        if n >= 2 && t.get_char(n - 1) == ']' {
            let name = t.substring_char(1, n - 1).to_owned();
            doc.sections.push(TomlSection { name, entries: Vec::new() });
            proof {
                assert(doc@ =~~= old(doc)@.push(
                    SectionV { name: t@.subrange(1, n - 1), entries: seq![] },
                ));
            }
            return true;
        }
        return false;
    }
    match crate::text::find_char_in(t, '=') {
        Some(i) => {
            proof {
                crate::text::lemma_find_char_props(t@, '=');
            }
            let keypart = t.substring_char(0, i);
            let key = trim(keypart);
            if key.unicode_len() == 0 {
                return false;
            }
            let vpart = t.substring_char(i + 1, n);
            let vtext = trim(vpart);
            match parse_value_text(vtext) {
                Some(val) => {
                    let kv = TomlKv { key: key.to_owned(), value: val };
                    let ghost kvv = kv@;
                    let mut sec = doc.sections.pop().unwrap();
                    sec.entries.push(kv);
                    doc.sections.push(sec);
                    proof {
                        assert(doc@ =~~= append_kv(old(doc)@, kvv));
                    }
                    true
                },
                None => false,
            }
        },
        None => false,
    }
}

/// Parse a whole document text.  `None` is a parse failure.
pub fn parse_document(s: &str) -> (r: Option<TomlDoc>)
    ensures
        match r {
            Some(d) => parse_doc_spec(s@) == Some(d@),
            None => parse_doc_spec(s@) is None,
        },
{
    let lines = split_lines(s);
    let ghost all_lines = spec_lines(s@);
    let mut doc = TomlDoc { sections: Vec::new() };
    doc.sections.push(TomlSection { name: String::new(), entries: Vec::new() });
    proof {
        assert(doc@ =~~= seq![root_section()]);
        assert(all_lines.skip(0) =~= all_lines);
    }
    let mut k: usize = 0;
    while k < lines.len()
        invariant
            k <= lines.len(),
            lines@.len() == all_lines.len(),
            forall|i: int| 0 <= i < lines@.len() ==> (#[trigger] lines@[i])@ == all_lines[i],
            all_lines == spec_lines(s@),
            doc@.len() > 0,
            fold_lines(Some(seq![root_section()]), all_lines) == fold_lines(
                Some(doc@),
                all_lines.skip(k as int),
            ),
        decreases lines.len() - k,
    {
        let ghost pre = doc@;
        let ok = apply_line(&mut doc, lines[k]);
        proof {
            let remk = all_lines.skip(k as int);
            assert(remk[0] == all_lines[k as int]);
            assert(remk.drop_first() =~= all_lines.skip(k as int + 1));
            assert(fold_lines(Some(pre), remk) == fold_lines(
                step_line(pre, all_lines[k as int]),
                all_lines.skip(k as int + 1),
            ));
        }
        if !ok {
            proof {
                let rem1 = all_lines.skip(k as int + 1);
                assert(fold_lines(None, rem1) is None);
            }
            return None;
        }
        k = k + 1;
    }
    proof {
        assert(all_lines.skip(k as int) =~= Seq::<Seq<char>>::empty());
        assert(fold_lines(Some(doc@), all_lines.skip(k as int)) == Some(doc@));
    }
    if doc.sections[0].entries.len() == 0 {
        let ghost pre = doc@;
        let _root = doc.sections.remove(0);
        proof {
            assert(doc@ =~~= finish_doc(pre));
        }
        Some(doc)
    } else {
        proof {
            assert(finish_doc(doc@) == doc@);
        }
        Some(doc)
    }
}

// ---------------------------------------------------------------------------
// Executable renderer
// ---------------------------------------------------------------------------

/// Render one value.
pub fn render_value(v: &TomlValue) -> (r: String)
    ensures
        r@ == render_value_spec(v@),
{
    proof {
        reveal_strlit("\"");
        reveal_strlit("true");
        reveal_strlit("false");
        reveal_strlit("-");
    }
    match v {
        TomlValue::S(s) => {
            let mut r = String::new();
            r.append("\"");
            r.append(s.as_str());
            r.append("\"");
            assert(r@ =~= render_value_spec(v@));
            r
        },
        TomlValue::I(i) => {
            let iv = *i;
            if iv < 0 {
                let mag: u64 = if iv == i64::MIN {
                    0x8000_0000_0000_0000u64
                } else {
                    (-iv) as u64
                };
                let mut r = String::new();
                r.append("-");
                let digits = u64_to_string(mag);
                r.append(digits.as_str());
                assert(r@ =~= render_value_spec(v@));
                r
            } else {
                let r = u64_to_string(iv as u64);
                assert(r@ =~= render_value_spec(v@));
                r
            }
        },
        TomlValue::B(b) => {
            if *b {
                let r = "true".to_owned();
                assert(r@ =~= render_value_spec(v@));
                r
            } else {
                let r = "false".to_owned();
                assert(r@ =~= render_value_spec(v@));
                r
            }
        },
    }
}

/// Rendering a list of entries grows one entry at a time.
proof fn lemma_render_kvs_push(entries: Seq<KvV>, kv: KvV)
    ensures
        render_kvs_spec(entries.push(kv)) == render_kvs_spec(entries) + render_kv_spec(kv),
    decreases entries.len(),
{
    let p = entries.push(kv);
    if entries.len() == 0 {
        assert(p[0] == kv);
        assert(p.drop_first() =~= Seq::<KvV>::empty());
        assert(render_kvs_spec(p.drop_first()) =~= Seq::<char>::empty());
        assert(render_kvs_spec(p) =~= render_kv_spec(kv));
        assert(render_kvs_spec(entries) =~= Seq::<char>::empty());
        assert(render_kvs_spec(entries) + render_kv_spec(kv) =~= render_kv_spec(kv));
    } else {
        let t = entries.drop_first();
        lemma_render_kvs_push(t, kv);
        assert(p.drop_first() =~= t.push(kv));
        assert(p[0] == entries[0]);
        assert(render_kvs_spec(p) == render_kv_spec(entries[0]) + render_kvs_spec(t.push(kv)));
        assert(render_kvs_spec(entries) == render_kv_spec(entries[0]) + render_kvs_spec(t));
        assert(render_kvs_spec(p) =~= render_kvs_spec(entries) + render_kv_spec(kv));
    }
}

/// Rendering a document grows one section at a time.
proof fn lemma_render_doc_push(d: Seq<SectionV>, sec: SectionV)
    ensures
        render_doc_spec(d.push(sec)) == render_doc_spec(d) + render_section_spec(sec),
    decreases d.len(),
{
    let p = d.push(sec);
    if d.len() == 0 {
        assert(p[0] == sec);
        assert(p.drop_first() =~= Seq::<SectionV>::empty());
        assert(render_doc_spec(p.drop_first()) =~= Seq::<char>::empty());
        assert(render_doc_spec(p) =~= render_section_spec(sec));
        assert(render_doc_spec(d) =~= Seq::<char>::empty());
        assert(render_doc_spec(d) + render_section_spec(sec) =~= render_section_spec(sec));
    } else {
        let t = d.drop_first();
        lemma_render_doc_push(t, sec);
        assert(p.drop_first() =~= t.push(sec));
        assert(p[0] == d[0]);
        assert(render_doc_spec(p) == render_section_spec(d[0]) + render_doc_spec(t.push(sec)));
        assert(render_doc_spec(d) == render_section_spec(d[0]) + render_doc_spec(t));
        assert(render_doc_spec(p) =~= render_doc_spec(d) + render_section_spec(sec));
    }
}

/// Render one section: header line, entry lines, blank separator line.
pub fn render_section(sec: &TomlSection) -> (r: String)
    ensures
        r@ == render_section_spec(sec@),
{
    proof {
        reveal_strlit("[");
        reveal_strlit("]\n");
        reveal_strlit(" = ");
        reveal_strlit("\n");
    }
    let mut r = String::new();
    r.append("[");
    r.append(sec.name.as_str());
    r.append("]\n");
    let ghost head = seq!['['] + sec@.name + seq![']', '\n'];
    assert(r@ =~= head + render_kvs_spec(Seq::<KvV>::empty()));
    let mut i: usize = 0;
    while i < sec.entries.len()
        invariant
            i <= sec.entries.len(),
            head == seq!['['] + sec@.name + seq![']', '\n'],
            r@ == head + render_kvs_spec(sec@.entries.take(i as int)),
        decreases sec.entries.len() - i,
    {
        proof {
            reveal_strlit(" = ");
            reveal_strlit("\n");
        }
        let kv = &sec.entries[i];
        r.append(kv.key.as_str());
        r.append(" = ");
        let vs = render_value(&kv.value);
        r.append(vs.as_str());
        r.append("\n");
        proof {
            assert(sec@.entries.take(i as int + 1) =~= sec@.entries.take(i as int).push(
                sec@.entries[i as int],
            ));
            lemma_render_kvs_push(sec@.entries.take(i as int), sec@.entries[i as int]);
            assert(sec@.entries[i as int] == sec.entries@[i as int]@);
            assert(r@ =~= head + render_kvs_spec(sec@.entries.take(i as int + 1)));
        }
        i = i + 1;
    }
    r.append("\n");
    proof {
        assert(sec@.entries.take(sec.entries@.len() as int) =~= sec@.entries);
        assert(r@ =~= render_section_spec(sec@));
    }
    r
}

/// Render a whole document in canonical form.
pub fn render_document(doc: &TomlDoc) -> (r: String)
    ensures
        r@ == render_doc_spec(doc@),
{
    let mut r = String::new();
    assert(r@ =~= render_doc_spec(Seq::<SectionV>::empty()));
    let mut i: usize = 0;
    while i < doc.sections.len()
        invariant
            i <= doc.sections.len(),
            r@ == render_doc_spec(doc@.take(i as int)),
        decreases doc.sections.len() - i,
    {
        let s = render_section(&doc.sections[i]);
        r.append(s.as_str());
        proof {
            assert(doc@.take(i as int + 1) =~= doc@.take(i as int).push(doc@[i as int]));
            lemma_render_doc_push(doc@.take(i as int), doc@[i as int]);
            assert(doc@[i as int] == doc.sections@[i as int]@);
            assert(r@ =~= render_doc_spec(doc@.take(i as int + 1)));
        }
        i = i + 1;
    }
    proof {
        assert(doc@.take(doc.sections@.len() as int) =~= doc@);
    }
    r
}

// ---------------------------------------------------------------------------
// Executable lookup
// ---------------------------------------------------------------------------

/// The value under `section.key`, if the document has it.
pub fn lookup<'a>(doc: &'a TomlDoc, sec: &str, key: &str) -> (r: Option<&'a TomlValue>)
    ensures
        match r {
            Some(v) => lookup_spec(doc@, sec@, key@) == Some(v@),
            None => lookup_spec(doc@, sec@, key@) is None,
        },
{
    let mut i: usize = 0;
    while i < doc.sections.len()
        invariant
            i <= doc.sections.len(),
            forall|j: int| 0 <= j < i ==> (#[trigger] doc@[j]).name != sec@,
        decreases doc.sections.len() - i,
    {
        if str_eq(doc.sections[i].name.as_str(), sec) {
            proof {
                lemma_find_section_witness(doc@, sec@, i as int);
            }
            let entries = &doc.sections[i].entries;
            let mut j: usize = 0;
            while j < entries.len()
                invariant
                    j <= entries.len(),
                    find_section(doc@, sec@) == Some(i as int),
                    i < doc.sections@.len(),
                    entries == &doc.sections[i as int].entries,
                    forall|m: int| 0 <= m < j ==> (#[trigger] doc@[i as int].entries[m]).key != key@,
                decreases entries.len() - j,
            {
                if str_eq(entries[j].key.as_str(), key) {
                    proof {
                        lemma_find_kv_witness(doc@[i as int].entries, key@, j as int);
                    }
                    return Some(&entries[j].value);
                }
                assert(doc@[i as int].entries[j as int].key == entries@[j as int].key@);
                j = j + 1;
            }
            proof {
                lemma_find_kv_none(doc@[i as int].entries, key@);
            }
            return None;
        }
        assert(doc@[i as int].name == doc.sections@[i as int].name@);
        i = i + 1;
    }
    proof {
        lemma_find_section_none(doc@, sec@);
    }
    None
}


// ---------------------------------------------------------------------------
// Round trip: rendered documents parse back
// ---------------------------------------------------------------------------

/// A key that renders into a line that parses back: non-empty, bordered by
/// non-whitespace, not opening a comment or a header, and free of `=` and
/// line breaks.
pub open spec fn clean_key(k: Seq<char>) -> bool {
    k.len() > 0 && !is_ws_char(k[0]) && !is_ws_char(k.last()) && k[0] != '#' && k[0] != '[' && (
    forall|i: int| 0 <= i < k.len() ==> #[trigger] k[i] != '=' && k[i] != '\n')
}

/// A value that renders into text that parses back: a string free of quotes,
/// backslashes and line breaks, or an integer in 64-bit signed range.
pub open spec fn clean_value(v: ValueV) -> bool {
    match v {
        ValueV::S(s) => string_content_clean(s),
        ValueV::I(i) => -i64_neg_limit() <= i < i64_neg_limit(),
        ValueV::B(_) => true,
    }
}

/// A section name that renders into a header that parses back: free of line
/// breaks.
pub open spec fn clean_name(n: Seq<char>) -> bool {
    forall|i: int| 0 <= i < n.len() ==> #[trigger] n[i] != '\n'
}

/// A section whose rendering parses back.
pub open spec fn clean_section(sec: SectionV) -> bool {
    clean_name(sec.name) && forall|j: int|
        0 <= j < sec.entries.len() ==> clean_key((#[trigger] sec.entries[j]).key) && clean_value(
            sec.entries[j].value,
        )
}

/// A document whose rendering parses back.
pub open spec fn clean_doc(d: Seq<SectionV>) -> bool {
    forall|i: int| 0 <= i < d.len() ==> clean_section(#[trigger] d[i])
}

/// Splitting peels one newline-terminated line at a time.
pub proof fn lemma_lines_chomp(line: Seq<char>, rest: Seq<char>)
    requires
        forall|i: int| 0 <= i < line.len() ==> #[trigger] line[i] != '\n',
    ensures
        spec_lines(line + seq!['\n'] + rest) == seq![line] + spec_lines(rest),
{
    let s = line + seq!['\n'] + rest;
    assert(s[line.len() as int] == '\n');
    assert(forall|j: int| 0 <= j < line.len() ==> s[j] == line[j]);
    crate::text::lemma_find_char_witness(s, '\n', line.len() as int);
    assert(s.subrange(0, line.len() as int) =~= line);
    assert(s.subrange(line.len() as int + 1, s.len() as int) =~= rest);
}

/// A rendered value parses back, and its text is bordered by non-whitespace
/// and free of line breaks.
pub proof fn lemma_parse_render_value(v: ValueV)
    requires
        clean_value(v),
    ensures
        parse_value_spec(render_value_spec(v)) == Some(v),
        render_value_spec(v).len() > 0,
        !is_ws_char(render_value_spec(v)[0]),
        !is_ws_char(render_value_spec(v).last()),
        forall|i: int|
            0 <= i < render_value_spec(v).len() ==> #[trigger] render_value_spec(v)[i] != '\n',
{
    let rv = render_value_spec(v);
    match v {
        ValueV::S(s) => {
            assert(rv =~= seq!['"'] + s + seq!['"']);
            assert(rv[0] == '"');
            assert(rv.last() == '"');
            assert(rv.subrange(1, rv.len() - 1) =~= s);
            assert(parse_value_spec(rv) == Some(ValueV::S(s)));
            assert(forall|i: int| 0 <= i < rv.len() ==> #[trigger] rv[i] != '\n') by {
                assert(forall|i: int| 1 <= i < rv.len() - 1 ==> rv[i] == s[i - 1]);
            }
        },
        ValueV::B(b) => {
            if b {
                assert(rv == true_chars());
                assert(rv[0] == 't');
                assert(parse_value_spec(rv) == Some(ValueV::B(true)));
            } else {
                assert(rv == false_chars());
                assert(rv[0] == 'f');
                assert(rv != true_chars());
                assert(parse_value_spec(rv) == Some(ValueV::B(false)));
            }
            assert(forall|i: int| 0 <= i < rv.len() ==> #[trigger] rv[i] != '\n');
            assert(!is_ws_char(rv[0]) && !is_ws_char(rv.last()));
        },
        ValueV::I(n) => {
            if n >= 0 {
                crate::text::lemma_dec_of_val(n);
                assert(rv == dec_of(n));
                assert(is_digit_char(rv[0]));
                assert(rv[0] != '"' && rv[0] != '-' && rv[0] != 't' && rv[0] != 'f');
                assert(rv != true_chars() && rv != false_chars());
                assert(parse_int_spec(rv) == Some(n));
                assert(forall|i: int| 0 <= i < rv.len() ==> #[trigger] rv[i] != '\n') by {
                    assert(forall|i: int| 0 <= i < rv.len() ==> is_digit_char(#[trigger] rv[i]));
                }
                assert(is_digit_char(rv.last()));
                assert(!is_ws_char(rv[0]) && !is_ws_char(rv.last()));
            } else {
                crate::text::lemma_dec_of_val(-n);
                let m = dec_of(-n);
                assert(rv =~= seq!['-'] + m);
                assert(rv[0] == '-');
                assert(rv != true_chars() && rv != false_chars());
                assert(rv.drop_first() =~= m);
                assert(digits_val(m) == -n <= i64_neg_limit());
                assert(parse_int_spec(rv) == Some(n));
                assert(rv.last() == m.last());
                assert(is_digit_char(m.last()));
                assert(forall|i: int| 0 <= i < rv.len() ==> #[trigger] rv[i] != '\n') by {
                    assert(forall|i: int| 1 <= i < rv.len() ==> rv[i] == m[i - 1]);
                    assert(forall|i: int| 0 <= i < m.len() ==> is_digit_char(#[trigger] m[i]));
                }
                assert(!is_ws_char(rv[0]) && !is_ws_char(rv.last()));
            }
        },
    }
}

/// A rendered header line opens its section.
pub proof fn lemma_step_header(st: Seq<SectionV>, name: Seq<char>)
    ensures
        step_line(st, seq!['['] + name + seq![']']) == Some(
            st.push(SectionV { name: name, entries: seq![] }),
        ),
{
    let line = seq!['['] + name + seq![']'];
    assert(line[0] == '[' && line.last() == ']');
    crate::text::lemma_trim_noop(line);
    assert(line.subrange(1, line.len() - 1) =~= name);
}

/// A rendered entry line appends its entry to the open section.
pub proof fn lemma_step_kv(st: Seq<SectionV>, kv: KvV)
    requires
        st.len() > 0,
        clean_key(kv.key),
        clean_value(kv.value),
    ensures
        step_line(st, kv.key + seq![' ', '=', ' '] + render_value_spec(kv.value)) == Some(
            append_kv(st, kv),
        ),
{
    let rv = render_value_spec(kv.value);
    lemma_parse_render_value(kv.value);
    let line = kv.key + seq![' ', '=', ' '] + rv;
    assert(line[0] == kv.key[0]);
    assert(line.last() == rv.last());
    crate::text::lemma_trim_noop(line);
    let i: int = kv.key.len() as int + 1;
    assert(line[i] == '=');
    assert(forall|j: int| 0 <= j < i ==> line[j] != '=') by {
        assert(forall|j: int| 0 <= j < kv.key.len() ==> line[j] == kv.key[j]);
        assert(line[kv.key.len() as int] == ' ');
    }
    crate::text::lemma_find_char_witness(line, '=', i);
    let kpart = line.subrange(0, i);
    assert(kpart =~= kv.key + seq![' ']);
    assert(trim_start_spec(kpart) == kpart);
    assert(kpart.drop_last() =~= kv.key);
    assert(trim_end_spec(kpart) == trim_end_spec(kv.key));
    assert(trim_end_spec(kv.key) == kv.key);
    assert(trim_spec(kpart) == kv.key);
    let vpart = line.subrange(i + 1, line.len() as int);
    assert(vpart =~= seq![' '] + rv);
    assert(vpart[0] == ' ');
    assert(vpart.drop_first() =~= rv);
    assert(trim_start_spec(vpart) == trim_start_spec(rv));
    assert(trim_start_spec(rv) == rv);
    assert(trim_end_spec(rv) == rv);
    assert(trim_spec(vpart) == rv);
    assert(step_line(st, line) == Some(append_kv(st, kv)));
}


/// Entries appended one at a time.
pub open spec fn append_kvs(st: Seq<SectionV>, entries: Seq<KvV>) -> Seq<SectionV>
    decreases entries.len(),
{
    if entries.len() == 0 {
        st
    } else {
        append_kvs(append_kv(st, entries[0]), entries.drop_first())
    }
}

/// Appending entries to a freshly opened section fills that section.
pub proof fn lemma_append_kvs_push(
    st: Seq<SectionV>,
    name: Seq<char>,
    acc: Seq<KvV>,
    entries: Seq<KvV>,
)
    ensures
        append_kvs(st.push(SectionV { name, entries: acc }), entries) == st.push(
            SectionV { name, entries: acc + entries },
        ),
    decreases entries.len(),
{
    if entries.len() == 0 {
        assert(acc + entries =~= acc);
        assert(st.push(SectionV { name, entries: acc + entries }) =~~= st.push(
            SectionV { name, entries: acc },
        ));
    } else {
        let kv = entries[0];
        let base = st.push(SectionV { name, entries: acc });
        assert(append_kv(base, kv) =~~= st.push(SectionV { name, entries: acc.push(kv) }));
        lemma_append_kvs_push(st, name, acc.push(kv), entries.drop_first());
        assert(acc.push(kv) + entries.drop_first() =~= acc + entries);
        assert(st.push(SectionV { name, entries: acc.push(kv) + entries.drop_first() }) =~~= st.push(
            SectionV { name, entries: acc + entries },
        ));
    }
}

/// Folding the lines of rendered entries appends those entries to the open
/// section, then goes on with whatever text follows.
pub proof fn lemma_fold_kvs(entries: Seq<KvV>, st: Seq<SectionV>, tail: Seq<char>)
    requires
        st.len() > 0,
        forall|j: int|
            0 <= j < entries.len() ==> clean_key((#[trigger] entries[j]).key) && clean_value(
                entries[j].value,
            ),
    ensures
        fold_lines(Some(st), spec_lines(render_kvs_spec(entries) + tail)) == fold_lines(
            Some(append_kvs(st, entries)),
            spec_lines(tail),
        ),
    decreases entries.len(),
{
    if entries.len() == 0 {
        assert(render_kvs_spec(entries) + tail =~= tail);
    } else {
        let kv = entries[0];
        let rest = entries.drop_first();
        let rv = render_value_spec(kv.value);
        lemma_parse_render_value(kv.value);
        let line = kv.key + seq![' ', '=', ' '] + rv;
        assert(render_kv_spec(kv) =~= line + seq!['\n']);
        assert(render_kvs_spec(entries) == render_kv_spec(kv) + render_kvs_spec(rest));
        let tail1 = render_kvs_spec(rest) + tail;
        assert(render_kvs_spec(entries) + tail =~= line + seq!['\n'] + tail1);
        assert(forall|j: int| 0 <= j < line.len() ==> #[trigger] line[j] != '\n') by {
            assert(forall|j: int| 0 <= j < kv.key.len() ==> line[j] == kv.key[j]);
            assert(line[kv.key.len() as int] == ' ');
            assert(line[kv.key.len() as int + 1] == '=');
            assert(line[kv.key.len() as int + 2] == ' ');
            assert(forall|j: int|
                kv.key.len() + 3 <= j < line.len() ==> line[j] == rv[j - kv.key.len() - 3]);
        }
        lemma_lines_chomp(line, tail1);
        lemma_step_kv(st, kv);
        let lines1 = seq![line] + spec_lines(tail1);
        assert(lines1[0] == line);
        assert(lines1.drop_first() =~= spec_lines(tail1));
        assert(fold_lines(Some(st), lines1) == fold_lines(
            Some(append_kv(st, kv)),
            spec_lines(tail1),
        ));
        lemma_fold_kvs(rest, append_kv(st, kv), tail);
    }
}

/// Folding the lines of rendered sections appends those sections, then goes
/// on with whatever text follows.
pub proof fn lemma_fold_sections(secs: Seq<SectionV>, st: Seq<SectionV>, tail: Seq<char>)
    requires
        st.len() > 0,
        forall|i: int| 0 <= i < secs.len() ==> clean_section(#[trigger] secs[i]),
    ensures
        fold_lines(Some(st), spec_lines(render_doc_spec(secs) + tail)) == fold_lines(
            Some(st + secs),
            spec_lines(tail),
        ),
    decreases secs.len(),
{
    if secs.len() == 0 {
        assert(render_doc_spec(secs) + tail =~= tail);
        assert(st + secs =~= st);
    } else {
        let sec = secs[0];
        let rest = secs.drop_first();
        assert(clean_section(sec));
        let hline = seq!['['] + sec.name + seq![']'];
        assert(render_doc_spec(secs) == render_section_spec(sec) + render_doc_spec(rest));
        let tail2 = render_doc_spec(rest) + tail;
        let tail1 = render_kvs_spec(sec.entries) + (seq!['\n'] + tail2);
        assert(render_doc_spec(secs) + tail =~= hline + seq!['\n'] + tail1);
        assert(forall|j: int| 0 <= j < hline.len() ==> #[trigger] hline[j] != '\n') by {
            assert(hline[0] == '[');
            assert(forall|j: int| 1 <= j < hline.len() - 1 ==> hline[j] == sec.name[j - 1]);
            assert(hline[hline.len() - 1] == ']');
        }
        lemma_lines_chomp(hline, tail1);
        lemma_step_header(st, sec.name);
        let opened = st.push(SectionV { name: sec.name, entries: seq![] });
        let lines1 = seq![hline] + spec_lines(tail1);
        assert(lines1[0] == hline);
        assert(lines1.drop_first() =~= spec_lines(tail1));
        assert(fold_lines(Some(st), lines1) == fold_lines(Some(opened), spec_lines(tail1)));
        lemma_fold_kvs(sec.entries, opened, seq!['\n'] + tail2);
        lemma_append_kvs_push(st, sec.name, seq![], sec.entries);
        assert(Seq::<KvV>::empty() + sec.entries =~= sec.entries);
        assert(append_kvs(opened, sec.entries) =~~= st.push(sec));
        lemma_lines_chomp(seq![], tail2);
        let lines2 = seq![Seq::<char>::empty()] + spec_lines(tail2);
        assert(lines2[0] =~= Seq::<char>::empty());
        assert(lines2.drop_first() =~= spec_lines(tail2));
        assert(step_line(st.push(sec), lines2[0]) == Some(st.push(sec)));
        assert(fold_lines(Some(st.push(sec)), lines2) == fold_lines(
            Some(st.push(sec)),
            spec_lines(tail2),
        ));
        lemma_fold_sections(rest, st.push(sec), tail);
        assert(st.push(sec) + rest =~= st + secs);
    }
}

/// The round trip of the grammar: the canonical rendering of any clean
/// document parses back to exactly that document.
pub proof fn lemma_parse_render_doc(d: Seq<SectionV>)
    requires
        clean_doc(d),
    ensures
        parse_doc_spec(render_doc_spec(d)) == Some(d),
{
    let text = render_doc_spec(d);
    assert(text =~= render_doc_spec(d) + Seq::<char>::empty());
    lemma_fold_sections(d, seq![root_section()], Seq::<char>::empty());
    crate::text::lemma_find_char_none(Seq::<char>::empty(), '\n');
    assert(spec_lines(Seq::<char>::empty()) == seq![Seq::<char>::empty()]);
    let st = seq![root_section()] + d;
    let lines0 = seq![Seq::<char>::empty()];
    assert(step_line(st, lines0[0]) == Some(st));
    assert(lines0.drop_first() =~= Seq::<Seq<char>>::empty());
    assert(fold_lines(Some(st), Seq::<Seq<char>>::empty()) == Some(st));
    assert(fold_lines(Some(st), lines0) == Some(st));
    assert(st[0].entries.len() == 0);
    assert(finish_doc(st) =~= d);
}


/// Every value a document holds is clean: its strings are free of quotes,
/// backslashes and line breaks, its integers in 64-bit signed range.
pub open spec fn doc_values_clean(d: Seq<SectionV>) -> bool {
    forall|i: int, j: int|
        0 <= i < d.len() && 0 <= j < d[i].entries.len() ==> clean_value(
            (#[trigger] d[i].entries[j]).value,
        )
}

/// Whatever a value text parses to is clean.
proof fn lemma_parse_value_clean(vtext: Seq<char>)
    ensures
        match parse_value_spec(vtext) {
            Some(v) => clean_value(v),
            None => true,
        },
{
    match parse_value_spec(vtext) {
        Some(v) => {
            match v {
                ValueV::S(_) => {},
                ValueV::I(_) => {
                    if vtext.len() >= 1 && vtext[0] == '-' {
                        if vtext.drop_first().len() > 0 && all_digits(vtext.drop_first()) {
                            crate::text::lemma_digits_val_nonneg(vtext.drop_first());
                        }
                    } else {
                        if vtext.len() > 0 && all_digits(vtext) {
                            crate::text::lemma_digits_val_nonneg(vtext);
                        }
                    }
                },
                ValueV::B(_) => {},
            }
        },
        None => {},
    }
}

proof fn lemma_step_values_clean(st: Seq<SectionV>, line: Seq<char>)
    requires
        doc_values_clean(st),
        st.len() > 0,
    ensures
        match step_line(st, line) {
            Some(d) => doc_values_clean(d) && d.len() > 0,
            None => true,
        },
{
    let t = trim_spec(line);
    if t.len() == 0 || t[0] == '#' {
    } else if t[0] == '[' {
        if t.len() >= 2 && t.last() == ']' {
            let d = st.push(SectionV { name: t.subrange(1, t.len() - 1), entries: seq![] });
            assert forall|i: int, j: int|
                0 <= i < d.len() && 0 <= j < d[i].entries.len() implies clean_value(
                (#[trigger] d[i].entries[j]).value,
            ) by {
                if i < st.len() {
                    assert(d[i] == st[i]);
                    assert(clean_value(st[i].entries[j].value));
                }
            }
        }
    } else {
        match crate::text::find_char(t, '=') {
            Some(i) => {
                let key = trim_spec(t.subrange(0, i));
                let vtext = trim_spec(t.subrange(i + 1, t.len() as int));
                if key.len() > 0 {
                    match parse_value_spec(vtext) {
                        Some(v) => {
                            lemma_parse_value_clean(vtext);
                            let d = append_kv(st, KvV { key, value: v });
                            let last = st.len() - 1;
                            assert forall|a: int, j: int|
                                0 <= a < d.len() && 0 <= j < d[a].entries.len() implies clean_value(
                                (#[trigger] d[a].entries[j]).value,
                            ) by {
                                if a < last {
                                    assert(d[a] == st[a]);
                                    assert(clean_value(st[a].entries[j].value));
                                } else {
                                    assert(d[a].entries == st[a].entries.push(
                                        KvV { key, value: v },
                                    ));
                                    if j < st[a].entries.len() {
                                        assert(d[a].entries[j] == st[a].entries[j]);
                                        assert(clean_value(st[a].entries[j].value));
                                    } else {
                                        assert(d[a].entries[j] == KvV { key, value: v });
                                    }
                                }
                            }
                        },
                        None => {},
                    }
                }
            },
            None => {},
        }
    }
}

proof fn lemma_fold_values_clean(st: Seq<SectionV>, lines: Seq<Seq<char>>)
    requires
        doc_values_clean(st),
        st.len() > 0,
    ensures
        match fold_lines(Some(st), lines) {
            Some(d) => doc_values_clean(d) && d.len() > 0,
            None => true,
        },
    decreases lines.len(),
{
    if lines.len() > 0 {
        lemma_step_values_clean(st, lines[0]);
        match step_line(st, lines[0]) {
            Some(d2) => {
                lemma_fold_values_clean(d2, lines.drop_first());
                assert(fold_lines(Some(st), lines) == fold_lines(
                    Some(d2),
                    lines.drop_first(),
                ));
            },
            None => {
                assert(fold_lines(Some(st), lines) == fold_lines(None, lines.drop_first()));
                assert(fold_lines(None, lines.drop_first()) is None);
            },
        }
    }
}

/// Whatever a text parses to holds only clean values.
pub proof fn lemma_parse_doc_values_clean(s: Seq<char>)
    ensures
        match parse_doc_spec(s) {
            Some(d) => doc_values_clean(d),
            None => true,
        },
{
    let init = seq![root_section()];
    assert(doc_values_clean(init)) by {
        assert(forall|i: int| 0 <= i < init.len() ==> (#[trigger] init[i]).entries.len() == 0);
    }
    lemma_fold_values_clean(init, spec_lines(s));
    match fold_lines(Some(init), spec_lines(s)) {
        Some(secs) => {
            let d = finish_doc(secs);
            if secs[0].entries.len() == 0 {
                assert forall|i: int, j: int|
                    0 <= i < d.len() && 0 <= j < d[i].entries.len() implies clean_value(
                    (#[trigger] d[i].entries[j]).value,
                ) by {
                    assert(d[i] == secs[i + 1]);
                    assert(clean_value(secs[i + 1].entries[j].value));
                }
            }
        },
        None => {},
    }
}

/// A value the lookup returns is one the document holds.
pub proof fn lemma_lookup_value_clean(d: Seq<SectionV>, sec: Seq<char>, key: Seq<char>)
    requires
        doc_values_clean(d),
    ensures
        match lookup_spec(d, sec, key) {
            Some(v) => clean_value(v),
            None => true,
        },
{
    lemma_find_section_props(d, sec);
    match find_section(d, sec) {
        Some(i) => {
            lemma_find_kv_props(d[i].entries, key);
            match find_kv(d[i].entries, key) {
                Some(j) => {
                    assert(clean_value(d[i].entries[j].value));
                },
                None => {},
            }
        },
        None => {},
    }
}

} // verus!
