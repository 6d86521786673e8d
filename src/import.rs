//! Import: what to send for each object of a snapshot, and how a run goes
//! on after each stage's outcome.

use vstd::prelude::*;
use vstd::string::StringExecFns;
use crate::attrs::{
    attrs_view, clone_values, drop_named, find_values, lemma_drop_named_excludes,
    lemma_drop_unmentioned, lemma_lookup_absent, lookup, mentions_any, values_view,
    without_names, AttrView,
};
use crate::object::{LdapObject, ObjectView};
use crate::text::chars_of;

verus! {

/// Remap rules as contracts see them: (source name, target name) pairs.
pub open spec fn rules_view(v: Seq<(String, String)>) -> Seq<(Seq<char>, Seq<char>)> {
    v.map_values(|p: (String, String)| (p.0@, p.1@))
}

/// The target of the last rule whose source is `name`.
pub open spec fn remap_target(rules: Seq<(Seq<char>, Seq<char>)>, name: Seq<char>) -> Option<
    Seq<char>,
>
    decreases rules.len(),
{
    if rules.len() == 0 {
        None
    } else if rules.last().0 == name {
        Some(rules.last().1)
    } else {
        remap_target(rules.drop_last(), name)
    }
}

/// `name` after the remap rules.
pub open spec fn renamed(rules: Seq<(Seq<char>, Seq<char>)>, name: Seq<char>) -> Seq<char> {
    match remap_target(rules, name) {
        Some(t) => t,
        None => name,
    }
}

pub open spec fn remap_attrs(attrs: Seq<AttrView>, rules: Seq<(Seq<char>, Seq<char>)>) -> Seq<
    AttrView,
> {
    attrs.map_values(|a: AttrView| (renamed(rules, a.0), a.1))
}

/// The attributes of an import: those named in `ignore` dropped first, the
/// rest then renamed by the rules.
pub open spec fn prepared(
    attrs: Seq<AttrView>,
    ignore: Seq<Seq<char>>,
    rules: Seq<(Seq<char>, Seq<char>)>,
) -> Seq<AttrView> {
    remap_attrs(drop_named(attrs, ignore), rules)
}

pub open spec fn account_control_name() -> Seq<char> {
    seq![
        'u', 's', 'e', 'r', 'A', 'c', 'c', 'o', 'u', 'n', 't', 'C', 'o', 'n', 't', 'r', 'o', 'l'
    ]
}

pub open spec fn normal_account() -> Seq<char> {
    seq!['5', '1', '2']
}

/// The account-control values of a credential change: those of the
/// attributes where they hold `userAccountControl`, else `512`.
pub open spec fn account_control_of(attrs: Seq<AttrView>) -> Seq<Seq<char>> {
    match lookup(attrs, account_control_name()) {
        Some(v) => v,
        None => seq![normal_account()],
    }
}

/// The UTF-16 code units of one character.
pub open spec fn utf16_units(c: char) -> Seq<u16> {
    let v = c as u32;
    if v < 0x10000 {
        seq![v as u16]
    } else {
        seq![(0xD800 + (v - 0x10000) / 0x400) as u16, (0xDC00 + (v - 0x10000) % 0x400) as u16]
    }
}

pub open spec fn utf16(s: Seq<char>) -> Seq<u16>
    decreases s.len(),
{
    if s.len() == 0 {
        seq![]
    } else {
        utf16(s.drop_last()) + utf16_units(s.last())
    }
}

/// Each unit as two bytes, the low byte first.
pub open spec fn le_bytes(u: Seq<u16>) -> Seq<u8>
    decreases u.len(),
{
    if u.len() == 0 {
        seq![]
    } else {
        le_bytes(u.drop_last()) + seq![(u.last() % 256) as u8, (u.last() / 256) as u8]
    }
}

/// The password value a directory expects: the password in double quotes,
/// as UTF-16 little-endian bytes.
pub open spec fn password_value(p: Seq<char>) -> Seq<u8> {
    le_bytes(seq![0x22u16] + utf16(p) + seq![0x22u16])
}

/// The attributes of an object to import, none where it has none.
pub open spec fn object_attrs(o: ObjectView) -> Seq<AttrView> {
    match o.attrs {
        Some(a) => a,
        None => seq![],
    }
}

/// The attributes left for the attribute stage: after ignore and remap,
/// and without `userAccountControl` where a credential stage took it.
pub open spec fn remaining_attrs(
    o: ObjectView,
    ignore: Seq<Seq<char>>,
    rules: Seq<(Seq<char>, Seq<char>)>,
) -> Seq<AttrView> {
    let a = prepared(object_attrs(o), ignore, rules);
    if o.password is Some {
        drop_named(a, seq![account_control_name()])
    } else {
        a
    }
}

/// With a credential, the account-control value is the value list of
/// `userAccountControl` where the prepared attributes hold it and `512`
/// otherwise, and no `userAccountControl` is left for the attribute stage.
pub proof fn lemma_account_control(
    o: ObjectView,
    ignore: Seq<Seq<char>>,
    rules: Seq<(Seq<char>, Seq<char>)>,
)
    requires
        o.password is Some,
    ensures
        lookup(prepared(object_attrs(o), ignore, rules), account_control_name()) matches Some(v)
            ==> account_control_of(prepared(object_attrs(o), ignore, rules)) == v,
        lookup(prepared(object_attrs(o), ignore, rules), account_control_name()) is None
            ==> account_control_of(prepared(object_attrs(o), ignore, rules)) == seq![
            normal_account(),
        ],
        forall|i: int|
            0 <= i < remaining_attrs(o, ignore, rules).len() ==> (#[trigger] remaining_attrs(
                o,
                ignore,
                rules,
            )[i]).0 != account_control_name(),
{
    let a = prepared(object_attrs(o), ignore, rules);
    let names = seq![account_control_name()];
    lemma_drop_named_excludes(a, names);
    assert forall|i: int| 0 <= i < remaining_attrs(o, ignore, rules).len() implies (
    #[trigger] remaining_attrs(o, ignore, rules)[i]).0 != account_control_name() by {
        assert(!names.contains(drop_named(a, names)[i].0));
        assert(names[0] == account_control_name());
    }
}

/// Where no attribute is named in the ignore set and no rule has an
/// attribute's name as its source, the attributes pass through unchanged.
pub proof fn lemma_no_match_unchanged(
    attrs: Seq<AttrView>,
    ignore: Seq<Seq<char>>,
    rules: Seq<(Seq<char>, Seq<char>)>,
)
    requires
        !mentions_any(attrs, ignore),
        forall|i: int| 0 <= i < attrs.len() ==> remap_target(rules, #[trigger] attrs[i].0) is None,
    ensures
        prepared(attrs, ignore, rules) == attrs,
{
    lemma_drop_unmentioned(attrs, ignore);
    assert(remap_attrs(attrs, rules) =~= attrs);
}

/// A run over an empty snapshot imports nothing.
pub proof fn lemma_empty_run()
    ensures
        !in_progress(ImportRun { total: 0, processed: 0, aborted: false }),
{
}

/// A result code, zero or not, leaves the run going: after the object is
/// done the next one follows if there is one. A refused modify stage is
/// reported as a failure.
pub proof fn lemma_result_code_continues(run: ImportRun, stage: Stage, code: u32)
    requires
        in_progress(run),
    ensures
        !after_outcome(run, stage, Outcome::Code(code)).aborted,
        in_progress(after_object(after_outcome(run, stage, Outcome::Code(code)))) <==> run.processed
            + 1 < run.total,
        code != 0 && stage != Stage::Create ==> report_of(stage, Outcome::Code(code))
            == Report::Failed,
{
}

/// A transport failure stops the run: no further object is imported.
pub proof fn lemma_transport_stops(run: ImportRun, stage: Stage)
    ensures
        report_of(stage, Outcome::Transport) == Report::Abort,
        !in_progress(after_outcome(run, stage, Outcome::Transport)),
{
}

/// Remap rules, looked up by source name; a later rule for the same source
/// wins.
pub struct RemapTable {
    pub rules: Vec<(String, String)>,
}

impl View for RemapTable {
    type V = Seq<(Seq<char>, Seq<char>)>;

    open spec fn view(&self) -> Seq<(Seq<char>, Seq<char>)> {
        rules_view(self.rules@)
    }
}

impl RemapTable {
    /// The table of the rules `rules`, in their order.
    pub fn new(rules: Vec<(String, String)>) -> (r: RemapTable)
        ensures
            r@ == rules_view(rules@),
    {
        RemapTable { rules }
    }

    /// The target name for `name`, where a rule has it as its source.
    pub fn target(&self, name: &String) -> (r: Option<String>)
        ensures
            match r {
                Some(t) => remap_target(self@, name@) == Some(t@),
                None => remap_target(self@, name@) is None,
            },
    {
        let ghost s = self@;
        let mut i: usize = self.rules.len();
        assert(s.subrange(0, i as int) =~= s);
        while i > 0
            invariant
                i <= self.rules.len(),
                s == self@,
                remap_target(s.subrange(0, i as int), name@) == remap_target(s, name@),
            decreases i,
        {
            assert(s.subrange(0, i as int).last() == (self.rules@[i - 1].0@, self.rules@[i
                - 1].1@));
            assert(s.subrange(0, i as int).drop_last() =~= s.subrange(0, i - 1));
            if self.rules[i - 1].0 == *name {
                return Some(self.rules[i - 1].1.clone());
            }
            i = i - 1;
        }
        None
    }
}

/// Renames each attribute by the table.
pub fn remap(attrs: &Vec<(String, Vec<String>)>, table: &RemapTable) -> (r: Vec<
    (String, Vec<String>),
>)
    ensures
        attrs_view(r@) == remap_attrs(attrs_view(attrs@), table@),
{
    let ghost s = attrs_view(attrs@);
    let mut out: Vec<(String, Vec<String>)> = Vec::new();
    let mut i: usize = 0;
    while i < attrs.len()
        invariant
            i <= attrs.len(),
            s == attrs_view(attrs@),
            attrs_view(out@) == remap_attrs(s.subrange(0, i as int), table@),
        decreases attrs.len() - i,
    {
        let ghost prev = out@;
        let name = match table.target(&attrs[i].0) {
            Some(t) => t,
            None => attrs[i].0.clone(),
        };
        out.push((name, clone_values(&attrs[i].1)));
        assert(attrs_view(out@) =~= attrs_view(prev).push(
            (renamed(table@, s[i as int].0), s[i as int].1),
        ));
        i = i + 1;
        assert(remap_attrs(s.subrange(0, i as int), table@) =~= remap_attrs(
            s.subrange(0, i - 1),
            table@,
        ).push((renamed(table@, s[i - 1].0), s[i - 1].1)));
    }
    assert(s.subrange(0, s.len() as int) =~= s);
    out
}

/// The attributes of an import: those named in `ignore` are dropped, then
/// the rest are renamed by the table, so an ignored name is never remapped.
pub fn prepare_attrs(
    attrs: &Vec<(String, Vec<String>)>,
    ignore: &Vec<String>,
    table: &RemapTable,
) -> (r: Vec<(String, Vec<String>)>)
    ensures
        attrs_view(r@) == prepared(attrs_view(attrs@), values_view(*ignore), table@),
{
    let kept = without_names(attrs, ignore);
    remap(&kept, table)
}

/// Takes the account-control values out of `attrs` for a credential
/// change: the values of its first `userAccountControl` where it has one
/// (every `userAccountControl` attribute then leaves `attrs`), else `512`.
pub fn take_account_control(attrs: &mut Vec<(String, Vec<String>)>) -> (r: Vec<String>)
    ensures
        values_view(r) == account_control_of(attrs_view(old(attrs)@)),
        attrs_view(final(attrs)@) == drop_named(
            attrs_view(old(attrs)@),
            seq![account_control_name()],
        ),
{
    let key = String::from_str("userAccountControl");
    proof {
        reveal_strlit("userAccountControl");
        assert(key@ =~= account_control_name());
    }
    let ghost s = attrs_view(attrs@);
    match find_values(attrs, &key) {
        Some(v) => {
            let names = vec![key];
            assert(values_view(names) =~= seq![account_control_name()]);
            *attrs = without_names(attrs, &names);
            v
        },
        None => {
            proof {
                assert forall|i: int| 0 <= i < s.len() implies !seq![
                    account_control_name(),
                ].contains(#[trigger] s[i].0) by {
                    lemma_lookup_absent(s, account_control_name(), i);
                    if seq![account_control_name()].contains(s[i].0) {
                        let k = choose|k: int|
                            0 <= k < 1 && seq![account_control_name()][k] == s[i].0;
                        assert(seq![account_control_name()][k] == account_control_name());
                    }
                }
                lemma_drop_unmentioned(s, seq![account_control_name()]);
            }
            let normal = String::from_str("512");
            proof {
                reveal_strlit("512");
                assert(normal@ =~= normal_account());
            }
            let r = vec![normal];
            assert(values_view(r) =~= seq![normal_account()]);
            r
        },
    }
}

/// The password value a directory expects for `password`: the password in
/// double quotes, encoded as UTF-16 little-endian bytes.
pub fn password_bytes(password: &str) -> (r: Vec<u8>)
    ensures
        r@ == password_value(password@),
{
    let cs = chars_of(password);
    let mut units: Vec<u16> = Vec::new();
    units.push(0x22u16);
    let mut i: usize = 0;
    assert(cs@.subrange(0, 0) =~= Seq::<char>::empty());
    assert(units@ =~= seq![0x22u16] + utf16(cs@.subrange(0, 0)));
    while i < cs.len()
        invariant
            i <= cs.len(),
            units@ == seq![0x22u16] + utf16(cs@.subrange(0, i as int)),
        decreases cs.len() - i,
    {
        let ghost prev = units@;
        let v = #[verifier::truncate] (cs[i] as u32);
        if v < 0x10000 {
            units.push(v as u16);
        } else {
            units.push(#[verifier::truncate] ((0xD800 + (v - 0x10000) / 0x400) as u16));
            units.push((0xDC00 + (v - 0x10000) % 0x400) as u16);
        }
        assert(units@ =~= prev + utf16_units(cs@[i as int]));
        assert(cs@.subrange(0, i + 1).drop_last() =~= cs@.subrange(0, i as int));
        i = i + 1;
    }
    units.push(0x22u16);
    assert(cs@.subrange(0, cs.len() as int) =~= password@);
    let ghost u = units@;
    assert(u =~= seq![0x22u16] + utf16(password@) + seq![0x22u16]);
    let mut out: Vec<u8> = Vec::new();
    let mut k: usize = 0;
    assert(u.subrange(0, 0) =~= Seq::<u16>::empty());
    while k < units.len()
        invariant
            k <= units.len(),
            u == units@,
            out@ == le_bytes(u.subrange(0, k as int)),
        decreases units.len() - k,
    {
        let w = units[k];
        out.push((w % 256) as u8);
        out.push((w / 256) as u8);
        assert(u.subrange(0, k + 1).drop_last() =~= u.subrange(0, k as int));
        k = k + 1;
        assert(out@ =~= le_bytes(u.subrange(0, k as int)));
    }
    assert(u.subrange(0, u.len() as int) =~= u);
    out
}

/// The credential stage of one object.
pub struct CredentialChange {
    /// The value of `unicodePwd`.
    pub password: Vec<u8>,
    /// The value of `userAccountControl`.
    pub account_control: Vec<String>,
}

/// What an import sends for one object: a create with `objectClass` set to
/// `classes`, then a credential change where the object has a credential,
/// then a replace of the remaining attributes where any remain.
pub struct ObjectPlan {
    pub dn: String,
    pub classes: Vec<String>,
    pub credential: Option<CredentialChange>,
    pub attributes: Option<Vec<(String, Vec<String>)>>,
    /// Whether the attribute stage carries the relaxed-constraint control.
    pub relaxed: bool,
}

/// Plans the import of `obj`, with the attributes named in `ignore`
/// dropped and the rest renamed by `table`.
pub fn plan_object(obj: &LdapObject, ignore: &Vec<String>, table: &RemapTable, relaxed: bool) -> (r:
    ObjectPlan)
    ensures
        r.dn@ == obj.dn@,
        values_view(r.classes) == values_view(obj.classes),
        r.relaxed == relaxed,
        r.credential is Some <==> obj.password is Some,
        r.credential matches Some(c) ==> {
            &&& c.password@ == password_value(obj@.password->Some_0)
            &&& values_view(c.account_control) == account_control_of(
                prepared(object_attrs(obj@), values_view(*ignore), table@),
            )
        },
        r.attributes is None <==> remaining_attrs(obj@, values_view(*ignore), table@).len() == 0,
        r.attributes matches Some(a) ==> attrs_view(a@) == remaining_attrs(
            obj@,
            values_view(*ignore),
            table@,
        ),
{
    let empty: Vec<(String, Vec<String>)> = Vec::new();
    let source = match &obj.attrs {
        Some(a) => a,
        None => &empty,
    };
    assert(attrs_view(source@) == object_attrs(obj@));
    let mut attrs = prepare_attrs(source, ignore, table);
    let credential = match &obj.password {
        Some(p) => {
            let password = password_bytes(p.as_str());
            let account_control = take_account_control(&mut attrs);
            Some(CredentialChange { password, account_control })
        },
        None => None,
    };
    let attributes = if attrs.len() == 0 {
        None
    } else {
        Some(attrs)
    };
    ObjectPlan {
        dn: obj.dn.clone(),
        classes: clone_values(&obj.classes),
        credential,
        attributes,
        relaxed,
    }
}

/// A stage of the import of one object.
#[derive(Debug, Clone, Copy, PartialEq, Eq, Structural)]
pub enum Stage {
    Create,
    Credential,
    Attributes,
}

/// What a stage's request came back with: the directory's result code, or
/// a failure of the transport.
#[derive(Debug, Clone, Copy, PartialEq, Eq, Structural)]
pub enum Outcome {
    Code(u32),
    Transport,
}

/// What a run does with a stage's outcome.
#[derive(Debug, Clone, Copy, PartialEq, Eq, Structural)]
pub enum Report {
    /// The stage succeeded; it is reported.
    Done,
    /// The directory refused the stage; it is reported with its text and
    /// the run goes on.
    Failed,
    /// A create the directory refused: not reported, the run goes on.
    Quiet,
    /// The transport failed: the run stops.
    Abort,
}

pub open spec fn report_of(stage: Stage, outcome: Outcome) -> Report {
    match outcome {
        Outcome::Transport => Report::Abort,
        Outcome::Code(c) => if c == 0 {
            Report::Done
        } else if stage == Stage::Create {
            Report::Quiet
        } else {
            Report::Failed
        },
    }
}

/// The progress of an import run over `total` objects.
#[derive(Debug, Clone, Copy, PartialEq, Eq, Structural)]
pub struct ImportRun {
    pub total: usize,
    /// Objects whose stages are all done.
    pub processed: usize,
    pub aborted: bool,
}

pub open spec fn in_progress(run: ImportRun) -> bool {
    !run.aborted && run.processed < run.total
}

/// The run after a stage of the current object came back with `outcome`.
pub open spec fn after_outcome(run: ImportRun, stage: Stage, outcome: Outcome) -> ImportRun {
    ImportRun { aborted: report_of(stage, outcome) == Report::Abort, ..run }
}

/// The run after the current object is done.
pub open spec fn after_object(run: ImportRun) -> ImportRun {
    ImportRun { processed: (run.processed + 1) as usize, ..run }
}

impl ImportRun {
    /// A run over `total` objects, none processed yet.
    pub fn new(total: usize) -> (r: ImportRun)
        ensures
            r == (ImportRun { total, processed: 0, aborted: false }),
    {
        ImportRun { total, processed: 0, aborted: false }
    }

    /// Whether another object is to be imported.
    pub fn has_next(&self) -> (b: bool)
        ensures
            b == in_progress(*self),
    {
        !self.aborted && self.processed < self.total
    }

    /// Records the outcome of a stage of the current object and says what
    /// to do with it.
    pub fn record(&mut self, stage: Stage, outcome: Outcome) -> (r: Report)
        requires
            in_progress(*old(self)),
        ensures
            r == report_of(stage, outcome),
            *final(self) == after_outcome(*old(self), stage, outcome),
    {
        match outcome {
            Outcome::Transport => {
                self.aborted = true;
                Report::Abort
            },
            Outcome::Code(c) => {
                if c == 0 {
                    Report::Done
                } else if stage == Stage::Create {
                    Report::Quiet
                } else {
                    Report::Failed
                }
            },
        }
    }

    /// Marks the current object as done.
    pub fn finish_object(&mut self)
        requires
            in_progress(*old(self)),
        ensures
            *final(self) == after_object(*old(self)),
    {
        self.processed = self.processed + 1;
    }
}

} // verus!
