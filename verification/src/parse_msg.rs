//! The line grammar of ROS message definitions.
//!
//! After stripping `#` comments and surrounding whitespace, a line is a
//! constant (`<prim-type> <name> = <literal>`, recognised first because
//! only constants contain `=`) or a field (`<type> <name>`); anything
//! else is ignored.
use vstd::prelude::*;

use crate::error::RosError;
use crate::foreign::is_separator_line;
use crate::msg::{
    cache_wf, lemma_cache_get_wf, spec_cache_get, spec_try_from_parsed_lines, MsgDefCache,
    MsgType,
};
use crate::data_type::MsgTypeV;
use crate::strutil::{
    find_char, own_range, rfind_char, spec_find_char, spec_rfind_char, spec_split_lines_from,
    spec_trim, spec_trim_end, split_lines, str_starts_with, trim_end_str, trim_str,
};

verus! {

/// A parsed field line: a type name and a field name.
#[derive(Clone, Debug)]
pub struct FieldLine {
    /// The declared type, verbatim (may carry `[..]` suffixes).
    pub field_type: String,
    /// The field name.
    pub field_name: String,
}

/// A parsed constant line: a type name, a constant name and a literal.
#[derive(Clone, Debug)]
pub struct ConstLine {
    /// The declared primitive type.
    pub const_type: String,
    /// The constant name.
    pub const_name: String,
    /// The literal, verbatim.
    pub const_value: String,
}

/// One meaningful line of a message definition.
#[derive(Clone, Debug)]
pub enum MsgLine {
    /// A field declaration.
    Field(FieldLine),
    /// A constant declaration.
    Const(ConstLine),
}

/// Specification view of [`FieldLine`].
pub ghost struct FieldLineV {
    pub field_type: Seq<char>,
    pub field_name: Seq<char>,
}

/// Specification view of [`ConstLine`].
pub ghost struct ConstLineV {
    pub const_type: Seq<char>,
    pub const_name: Seq<char>,
    pub const_value: Seq<char>,
}

/// Specification view of [`MsgLine`].
pub ghost enum MsgLineV {
    Field(FieldLineV),
    Const(ConstLineV),
}

impl View for FieldLine {
    type V = FieldLineV;

    open spec fn view(&self) -> FieldLineV {
        FieldLineV { field_type: self.field_type@, field_name: self.field_name@ }
    }
}

impl View for ConstLine {
    type V = ConstLineV;

    open spec fn view(&self) -> ConstLineV {
        ConstLineV {
            const_type: self.const_type@,
            const_name: self.const_name@,
            const_value: self.const_value@,
        }
    }
}

impl View for MsgLine {
    type V = MsgLineV;

    open spec fn view(&self) -> MsgLineV {
        match self {
            MsgLine::Field(f) => MsgLineV::Field(f@),
            MsgLine::Const(c) => MsgLineV::Const(c@),
        }
    }
}

impl DeepView for MsgLine {
    type V = MsgLineV;

    open spec fn deep_view(&self) -> MsgLineV {
        self@
    }
}

// ---------------------------------------------------------------------------
// Single lines
// ---------------------------------------------------------------------------

/// The constant parsed from a line, where the line holds an `=` and the
/// part before it holds a space between type and name.
pub open spec fn spec_try_const_map(s: Seq<char>) -> Option<ConstLineV> {
    match spec_find_char(s, '=', 0) {
        None => None,
        Some(i) => {
            let left = spec_trim_end(s.subrange(0, i));
            match spec_find_char(left, ' ', 0) {
                None => None,
                Some(j) => Some(
                    ConstLineV {
                        const_type: spec_trim(left.subrange(0, j)),
                        const_name: spec_trim(left.subrange(j + 1, left.len() as int)),
                        const_value: spec_trim(s.subrange(i + 1, s.len() as int)),
                    },
                ),
            }
        },
    }
}

/// The field parsed from a line holding a space between type and name.
pub open spec fn spec_try_field_map(s: Seq<char>) -> Option<FieldLineV> {
    match spec_find_char(s, ' ', 0) {
        None => None,
        Some(j) => Some(
            FieldLineV {
                field_type: spec_trim(s.subrange(0, j)),
                field_name: spec_trim(s.subrange(j + 1, s.len() as int)),
            },
        ),
    }
}

/// Constant first (only constants contain `=`), then field, else nothing.
pub open spec fn spec_map_line(s: Seq<char>) -> Option<MsgLineV> {
    match spec_try_const_map(s) {
        Some(c) => Some(MsgLineV::Const(c)),
        None => match spec_try_field_map(s) {
            Some(f) => Some(MsgLineV::Field(f)),
            None => None,
        },
    }
}

/// Tries to parse a constant line.
pub fn try_const_map(line: &str) -> (r: Option<ConstLine>)
    ensures
        match r {
            Some(c) => spec_try_const_map(line@) == Some(c@),
            None => spec_try_const_map(line@) is None,
        },
{
    let n = line.unicode_len();
    let i = match find_char(line, '=', 0) {
        None => {
            return None;
        },
        Some(i) => i,
    };
    let left_raw = own_range(line, 0, i);
    let left = trim_end_str(left_raw.as_str());
    let ln = left.unicode_len();
    let j = match find_char(left.as_str(), ' ', 0) {
        None => {
            return None;
        },
        Some(j) => j,
    };
    let const_type = trim_str(own_range(left.as_str(), 0, j).as_str());
    let const_name = trim_str(own_range(left.as_str(), j + 1, ln).as_str());
    let const_value = trim_str(own_range(line, i + 1, n).as_str());
    Some(ConstLine { const_type, const_name, const_value })
}

/// Tries to parse a field line.
pub fn try_field_map(line: &str) -> (r: Option<FieldLine>)
    ensures
        match r {
            Some(f) => spec_try_field_map(line@) == Some(f@),
            None => spec_try_field_map(line@) is None,
        },
{
    let n = line.unicode_len();
    let j = match find_char(line, ' ', 0) {
        None => {
            return None;
        },
        Some(j) => j,
    };
    let field_type = trim_str(own_range(line, 0, j).as_str());
    let field_name = trim_str(own_range(line, j + 1, n).as_str());
    Some(FieldLine { field_type, field_name })
}

/// Parses one cleaned line into a constant or field, or nothing.
pub fn map_line(line: &str) -> (r: Option<MsgLine>)
    ensures
        match r {
            Some(m) => spec_map_line(line@) == Some(m@),
            None => spec_map_line(line@) is None,
        },
{
    match try_const_map(line) {
        Some(c) => Some(MsgLine::Const(c)),
        None => match try_field_map(line) {
            Some(f) => Some(MsgLine::Field(f)),
            None => None,
        },
    }
}

// ---------------------------------------------------------------------------
// Cleaning and collecting lines
// ---------------------------------------------------------------------------

/// A line after trimming and comment stripping, or `None` where the
/// line is blank or a pure comment.
pub open spec fn spec_clean_line(l: Seq<char>) -> Option<Seq<char>> {
    let t = spec_trim(l);
    if t.len() == 0 || t[0] == '#' {
        None
    } else {
        let u = match spec_find_char(t, '#', 0) {
            None => t,
            Some(i) => t.subrange(0, i),
        };
        Some(spec_trim_end(u))
    }
}

/// The cleaned lines of a block, blanks and comments dropped.
pub open spec fn spec_clean_lines(ls: Seq<Seq<char>>) -> Seq<Seq<char>>
    decreases ls.len(),
{
    if ls.len() == 0 {
        Seq::empty()
    } else {
        match spec_clean_line(ls[0]) {
            None => spec_clean_lines(ls.drop_first()),
            Some(c) => seq![c] + spec_clean_lines(ls.drop_first()),
        }
    }
}

/// Cleans one line.
pub fn clean_line(line: &str) -> (r: Option<String>)
    ensures
        match r {
            Some(c) => spec_clean_line(line@) == Some(c@),
            None => spec_clean_line(line@) is None,
        },
{
    let t = trim_str(line);
    let tn = t.unicode_len();
    if tn == 0 {
        return None;
    }
    if t.as_str().get_char(0) == '#' {
        return None;
    }
    let cut = match find_char(t.as_str(), '#', 0) {
        None => tn,
        Some(i) => i,
    };
    let u = own_range(t.as_str(), 0, cut);
    proof {
        if spec_find_char(t@, '#', 0) is None {
            assert(t@.subrange(0, tn as int) =~= t@);
        }
    }
    Some(trim_end_str(u.as_str()))
}

/// Cleans the lines `lines[lo..hi]`, dropping blanks and comments.
pub fn clean_lines(lines: &Vec<String>, lo: usize, hi: usize) -> (r: Vec<String>)
    requires
        lo <= hi <= lines@.len(),
    ensures
        r.deep_view() == spec_clean_lines(lines.deep_view().subrange(lo as int, hi as int)),
{
    let ghost whole = lines.deep_view().subrange(lo as int, hi as int);
    let mut out: Vec<String> = Vec::new();
    let mut i: usize = lo;
    assert(out.deep_view() =~= Seq::<Seq<char>>::empty());
    while i < hi
        invariant
            lo <= i <= hi,
            hi <= lines@.len(),
            whole == lines.deep_view().subrange(lo as int, hi as int),
            spec_clean_lines(whole) == out.deep_view() + spec_clean_lines(
                lines.deep_view().subrange(i as int, hi as int),
            ),
        decreases hi - i,
    {
        let ghost seg = lines.deep_view().subrange(i as int, hi as int);
        assert(seg[0] == lines.deep_view()[i as int]);
        assert(lines.deep_view()[i as int] == lines@[i as int]@);
        assert(seg.drop_first() =~= lines.deep_view().subrange(i as int + 1, hi as int));
        match clean_line(lines[i].as_str()) {
            None => {
            },
            Some(c) => {
                let ghost cv = c@;
                let ghost pre = out.deep_view();
                out.push(c);
                assert(out.deep_view() =~= pre.push(cv));
                assert(pre + (seq![cv] + spec_clean_lines(seg.drop_first())) =~= out.deep_view()
                    + spec_clean_lines(seg.drop_first()));
            },
        }
        i = i + 1;
    }
    assert(lines.deep_view().subrange(i as int, hi as int) =~= Seq::<Seq<char>>::empty());
    assert(out.deep_view() + spec_clean_lines(Seq::<Seq<char>>::empty()) =~= out.deep_view());
    out
}

/// The constants and fields parsed from cleaned lines.
pub open spec fn spec_map_lines(ls: Seq<Seq<char>>) -> Seq<MsgLineV>
    decreases ls.len(),
{
    if ls.len() == 0 {
        Seq::empty()
    } else {
        match spec_map_line(ls[0]) {
            None => spec_map_lines(ls.drop_first()),
            Some(m) => seq![m] + spec_map_lines(ls.drop_first()),
        }
    }
}

/// Parses the cleaned lines `lines[lo..hi]`, dropping unparseable ones.
pub fn map_lines(lines: &Vec<String>, lo: usize, hi: usize) -> (r: Vec<MsgLine>)
    requires
        lo <= hi <= lines@.len(),
    ensures
        r.deep_view() == spec_map_lines(lines.deep_view().subrange(lo as int, hi as int)),
{
    let ghost whole = lines.deep_view().subrange(lo as int, hi as int);
    let mut out: Vec<MsgLine> = Vec::new();
    let mut i: usize = lo;
    assert(out.deep_view() =~= Seq::<MsgLineV>::empty());
    while i < hi
        invariant
            lo <= i <= hi,
            hi <= lines@.len(),
            whole == lines.deep_view().subrange(lo as int, hi as int),
            spec_map_lines(whole) == out.deep_view() + spec_map_lines(
                lines.deep_view().subrange(i as int, hi as int),
            ),
        decreases hi - i,
    {
        let ghost seg = lines.deep_view().subrange(i as int, hi as int);
        assert(seg[0] == lines.deep_view()[i as int]);
        assert(lines.deep_view()[i as int] == lines@[i as int]@);
        assert(seg.drop_first() =~= lines.deep_view().subrange(i as int + 1, hi as int));
        match map_line(lines[i].as_str()) {
            None => {
            },
            Some(m) => {
                let ghost mv = m@;
                let ghost pre = out.deep_view();
                out.push(m);
                assert(out.deep_view() =~= pre.push(mv));
                assert(pre + (seq![mv] + spec_map_lines(seg.drop_first())) =~= out.deep_view()
                    + spec_map_lines(seg.drop_first()));
            },
        }
        i = i + 1;
    }
    assert(lines.deep_view().subrange(i as int, hi as int) =~= Seq::<Seq<char>>::empty());
    assert(out.deep_view() + spec_map_lines(Seq::<Seq<char>>::empty()) =~= out.deep_view());
    out
}

// ---------------------------------------------------------------------------
// One definition block
// ---------------------------------------------------------------------------

/// Whether a cleaned line is a sub-definition header `MSG: <name>`.
pub open spec fn spec_is_msg_header(s: Seq<char>) -> bool {
    s.len() >= "MSG: "@.len() && s.subrange(0, "MSG: "@.len() as int) == "MSG: "@
}

/// The name carried by a header line: everything after the last space.
pub open spec fn spec_last_token(s: Seq<char>) -> Seq<char> {
    match spec_rfind_char(s, ' ') {
        Some(j) => s.subrange(j + 1, s.len() as int),
        None => s,
    }
}

/// What [`parse_msg_def`] yields on the raw lines of one definition
/// block: the declared name, if the block opens with a `MSG:` header,
/// and the parsed constant and field lines.
pub open spec fn spec_parse_msg_def(ls: Seq<Seq<char>>) -> (Option<Seq<char>>, Seq<MsgLineV>) {
    let clean = spec_clean_lines(ls);
    if clean.len() > 0 && spec_is_msg_header(clean[0]) {
        (Some(spec_last_token(clean[0])), spec_map_lines(clean.drop_first()))
    } else {
        (None, spec_map_lines(clean))
    }
}

/// Parses one definition block, given as the raw lines `lines[lo..hi]`:
/// cleans the lines, takes the optional `MSG: <name>` header, and maps
/// the rest to constants and fields.
pub fn parse_msg_def(lines: &Vec<String>, lo: usize, hi: usize) -> (r: (
    Option<String>,
    Vec<MsgLine>,
))
    requires
        lo <= hi <= lines@.len(),
    ensures
        ({
            let s = spec_parse_msg_def(lines.deep_view().subrange(lo as int, hi as int));
            (match r.0 {
                Some(ref name) => s.0 == Some(name@),
                None => s.0 is None,
            }) && s.1 == r.1.deep_view()
        }),
{
    let clean = clean_lines(lines, lo, hi);
    let cn = clean.len();
    if cn > 0 && str_starts_with(clean[0].as_str(), "MSG: ") {
        assert(clean.deep_view()[0] == clean@[0]@);
        let head = clean[0].as_str();
        let hn = head.unicode_len();
        let name = match rfind_char(head, ' ') {
            Some(j) => own_range(head, j + 1, hn),
            None => clean[0].clone(),
        };
        let body = map_lines(&clean, 1, cn);
        assert(clean.deep_view().drop_first() =~= clean.deep_view().subrange(1, cn as int));
        (Some(name), body)
    } else {
        let body = map_lines(&clean, 0, cn);
        assert(clean.deep_view().subrange(0, cn as int) =~= clean.deep_view());
        proof {
            if clean.deep_view().len() > 0 {
                assert(clean.deep_view()[0] == clean@[0]@);
            }
        }
        (None, body)
    }
}

// ---------------------------------------------------------------------------
// Splitting a definition text into blocks
// ---------------------------------------------------------------------------

/// A separator line consists of one or more `=` and nothing else.
pub open spec fn spec_is_sep(l: Seq<char>) -> bool {
    l.len() > 0 && (forall|i: int| 0 <= i < l.len() ==> l[i] == '=')
}

/// First separator line at or after `from`.
pub open spec fn spec_find_sep(ls: Seq<Seq<char>>, from: int) -> Option<int>
    decreases ls.len() - from,
{
    if from < 0 || from >= ls.len() {
        None
    } else if spec_is_sep(ls[from]) {
        Some(from)
    } else {
        spec_find_sep(ls, from + 1)
    }
}

pub proof fn lemma_find_sep_bounds(ls: Seq<Seq<char>>, from: int)
    requires
        0 <= from,
    ensures
        match spec_find_sep(ls, from) {
            Some(i) => from <= i < ls.len(),
            None => true,
        },
    decreases ls.len() - from,
{
    if from < ls.len() && !spec_is_sep(ls[from]) {
        lemma_find_sep_bounds(ls, from + 1);
    }
}

/// The line ranges of the definition blocks from `from` onward: the
/// maximal runs between separator lines.
pub open spec fn spec_blocks_from(ls: Seq<Seq<char>>, from: int) -> Seq<(int, int)>
    recommends
        0 <= from <= ls.len(),
    decreases ls.len() - from,
    via spec_blocks_from_dec
{
    match spec_find_sep(ls, from) {
        None => seq![(from, ls.len() as int)],
        Some(i) => seq![(from, i)] + spec_blocks_from(ls, i + 1),
    }
}

#[via_fn]
proof fn spec_blocks_from_dec(ls: Seq<Seq<char>>, from: int) {
    if 0 <= from {
        lemma_find_sep_bounds(ls, from);
    }
}

pub proof fn lemma_blocks_from_shape(ls: Seq<Seq<char>>, from: int)
    requires
        0 <= from <= ls.len(),
    ensures
        spec_blocks_from(ls, from).len() >= 1,
        forall|k: int|
            0 <= k < spec_blocks_from(ls, from).len() ==> 0 <= (
            #[trigger] spec_blocks_from(ls, from)[k]).0 <= spec_blocks_from(ls, from)[k].1
                <= ls.len(),
    decreases ls.len() - from,
{
    lemma_find_sep_bounds(ls, from);
    match spec_find_sep(ls, from) {
        None => {},
        Some(i) => {
            lemma_blocks_from_shape(ls, i + 1);
        },
    }
}

/// Computes the block ranges of `lines`: runs of lines between
/// separator lines (`=+`).
pub fn block_bounds(lines: &Vec<String>) -> (r: Vec<(usize, usize)>)
    ensures
        ({
            let sv = spec_blocks_from(lines.deep_view(), 0);
            &&& r@.len() == sv.len()
            &&& forall|k: int|
                0 <= k < r@.len() ==> (#[trigger] r@[k]).0 == sv[k].0 && r@[k].1 == sv[k].1
            &&& forall|k: int| 0 <= k < r@.len() ==> (#[trigger] r@[k]).0 <= r@[k].1
                <= lines@.len()
            &&& r@.len() >= 1
        }),
{
    let ghost lv = lines.deep_view();
    let n = lines.len();
    let mut out: Vec<(usize, usize)> = Vec::new();
    let mut start: usize = 0;
    let mut i: usize = 0;
    while i < n
        invariant
            0 <= start <= i <= n,
            n == lines@.len(),
            lv == lines.deep_view(),
            spec_find_sep(lv, start as int) == spec_find_sep(lv, i as int),
            ({
                let sv = spec_blocks_from(lv, 0);
                let rest = spec_blocks_from(lv, start as int);
                &&& sv.len() == out@.len() + rest.len()
                &&& forall|k: int|
                    0 <= k < out@.len() ==> (#[trigger] out@[k]).0 == sv[k].0 && out@[k].1
                        == sv[k].1
                &&& forall|k: int| out@.len() <= k < sv.len() ==> sv[k] == rest[k - out@.len()]
                &&& forall|k: int| 0 <= k < out@.len() ==> (#[trigger] out@[k]).0 <= out@[k].1
                    <= n
            }),
        decreases n - i,
    {
        assert(lv[i as int] == lines@[i as int]@);
        if is_separator_line(lines[i].as_str()) {
            assert(spec_find_sep(lv, i as int) == Some(i as int));
            out.push((start, i));
            start = i + 1;
            proof {
                lemma_blocks_from_shape(lv, start as int);
            }
        } else {
            assert(spec_find_sep(lv, i as int) == spec_find_sep(lv, i as int + 1));
        }
        i = i + 1;
    }
    assert(spec_find_sep(lv, start as int) is None);
    out.push((start, n));
    proof {
        lemma_blocks_from_shape(lv, 0);
    }
    out
}

// ---------------------------------------------------------------------------
// Compiling a connection's definition text
// ---------------------------------------------------------------------------

/// The namespace (package) part of a fully qualified name: everything
/// before the last `/`, or empty where there is none.
pub open spec fn spec_namespace_of(name: Seq<char>) -> Seq<char> {
    match spec_rfind_char(name, '/') {
        Some(j) => name.subrange(0, j),
        None => Seq::empty(),
    }
}

/// The namespace part of a fully qualified type name.
pub fn namespace_of(name: &str) -> (r: String)
    ensures
        r@ == spec_namespace_of(name@),
{
    match rfind_char(name, '/') {
        Some(j) => own_range(name, 0, j),
        None => String::new(),
    }
}

/// Compiles one sub-definition block into the cache. The block must
/// open with a `MSG: <name>` header; a name already in the cache is
/// kept as it is.
pub open spec fn spec_compile_sub(
    cv: Seq<(Seq<char>, MsgTypeV)>,
    ls: Seq<Seq<char>>,
    lo: int,
    hi: int,
) -> Result<Seq<(Seq<char>, MsgTypeV)>, RosError> {
    let pm = spec_parse_msg_def(ls.subrange(lo, hi));
    match pm.0 {
        None => Err(RosError::InvalidType),
        Some(name) => if spec_cache_get(cv, name) is Some {
            Ok(cv)
        } else {
            match spec_try_from_parsed_lines(cv, pm.1, spec_namespace_of(name)) {
                Ok(m) => Ok(cv.push((name, m))),
                Err(e) => Err(e),
            }
        },
    }
}

/// Compiles the sub-definition blocks `bounds[1..=k]` in reverse order
/// (leaf types first), threading the cache.
pub open spec fn spec_compile_subs(
    cv: Seq<(Seq<char>, MsgTypeV)>,
    ls: Seq<Seq<char>>,
    bounds: Seq<(int, int)>,
    k: int,
) -> Result<Seq<(Seq<char>, MsgTypeV)>, RosError>
    decreases k,
{
    if k <= 0 {
        Ok(cv)
    } else {
        match spec_compile_sub(cv, ls, bounds[k].0, bounds[k].1) {
            Err(e) => Err(e),
            Ok(cv1) => spec_compile_subs(cv1, ls, bounds, k - 1),
        }
    }
}

/// What [`parse_con_msg_def`] yields: the updated cache and the
/// compiled type of the connection.
pub open spec fn spec_parse_con_msg_def(
    cv: Seq<(Seq<char>, MsgTypeV)>,
    ct: Seq<char>,
    defs: Seq<char>,
) -> Result<(Seq<(Seq<char>, MsgTypeV)>, MsgTypeV), RosError> {
    match spec_cache_get(cv, ct) {
        Some(m) => Ok((cv, m)),
        None => {
            let ls = spec_split_lines_from(defs, 0);
            let bounds = spec_blocks_from(ls, 0);
            match spec_compile_subs(cv, ls, bounds, bounds.len() - 1) {
                Err(e) => Err(e),
                Ok(cv1) => {
                    let pm = spec_parse_msg_def(ls.subrange(bounds[0].0, bounds[0].1));
                    match spec_try_from_parsed_lines(cv1, pm.1, spec_namespace_of(ct)) {
                        Err(e) => Err(e),
                        Ok(m) => Ok((cv1.push((ct, m)), m)),
                    }
                },
            }
        },
    }
}

/// Compiles a connection's `message_definition` text: the primary
/// definition first in the text, compiled last; sub-definitions
/// (separated by `=+` lines, each opening with `MSG: <name>`) compiled
/// in reverse order so leaf types are cached before their users. The
/// compiled primary type is cached under `con_type` and returned.
pub fn parse_con_msg_def(
    msg_def_cache: &mut MsgDefCache,
    con_type: &str,
    msg_defs: &str,
) -> (r: Result<MsgType, RosError>)
    ensures
        cache_wf(old(msg_def_cache)@) ==> match r {
            Ok(m) => spec_parse_con_msg_def(old(msg_def_cache)@, con_type@, msg_defs@) == Ok::<
                (Seq<(Seq<char>, MsgTypeV)>, MsgTypeV),
                RosError,
            >((final(msg_def_cache)@, m@)) && cache_wf(final(msg_def_cache)@)
                && crate::data_type::msg_wf(m@),
            Err(e) => spec_parse_con_msg_def(old(msg_def_cache)@, con_type@, msg_defs@) == Err::<
                (Seq<(Seq<char>, MsgTypeV)>, MsgTypeV),
                RosError,
            >(e) && cache_wf(final(msg_def_cache)@),
        },
{
    let ghost cv0 = msg_def_cache@;
    match msg_def_cache.get(con_type) {
        Some(m) => {
            proof {
                if cache_wf(cv0) {
                    lemma_cache_get_wf(cv0, con_type@);
                }
            }
            return Ok(m.duplicate());
        },
        None => {},
    }
    let lines = split_lines(msg_defs);
    let ghost lv = lines.deep_view();
    let bounds = block_bounds(&lines);
    let ghost bv = spec_blocks_from(lv, 0);
    let nb = bounds.len();
    let mut k: usize = nb - 1;
    while k >= 1
        invariant
            0 <= k < nb,
            nb == bounds@.len(),
            nb == bv.len(),
            lv == lines.deep_view(),
            bv == spec_blocks_from(lv, 0),
            cv0 == old(msg_def_cache)@,
            lv == spec_split_lines_from(msg_defs@, 0),
            spec_cache_get(cv0, con_type@) is None,
            forall|t: int|
                0 <= t < nb ==> (#[trigger] bounds@[t]).0 == bv[t].0 && bounds@[t].1 == bv[t].1,
            forall|t: int| 0 <= t < nb ==> (#[trigger] bounds@[t]).0 <= bounds@[t].1
                <= lines@.len(),
            cache_wf(cv0) ==> spec_compile_subs(cv0, lv, bv, nb - 1) == spec_compile_subs(
                msg_def_cache@,
                lv,
                bv,
                k as int,
            ) && cache_wf(msg_def_cache@),
        decreases k,
    {
        let lo = bounds[k].0;
        let hi = bounds[k].1;
        let ghost cur = msg_def_cache@;
        let (name_opt, mls) = parse_msg_def(&lines, lo, hi);
        match name_opt {
            None => {
                proof {
                    if cache_wf(cv0) {
                        assert(spec_compile_sub(cur, lv, bv[k as int].0, bv[k as int].1)
                            == Err::<Seq<(Seq<char>, MsgTypeV)>, RosError>(RosError::InvalidType));
                        assert(spec_compile_subs(cur, lv, bv, k as int) == Err::<
                            Seq<(Seq<char>, MsgTypeV)>,
                            RosError,
                        >(RosError::InvalidType));
                        assert(spec_compile_subs(cv0, lv, bv, nb - 1) == Err::<
                            Seq<(Seq<char>, MsgTypeV)>,
                            RosError,
                        >(RosError::InvalidType));
                    }
                }
                return Err(RosError::InvalidType);
            },
            Some(name) => {
                let already = match msg_def_cache.get(name.as_str()) {
                    Some(_) => true,
                    None => false,
                };
                if !already {
                    let ns = namespace_of(name.as_str());
                    match MsgType::try_from_parsed_lines(msg_def_cache, &mls, ns.as_str()) {
                        Ok(m) => {
                            let ghost pre = msg_def_cache@;
                            let ghost mv = crate::data_type::msg_type_view(m);
                            msg_def_cache.insert(name, m);
                            proof {
                                if cache_wf(cv0) {
                                    assert(cache_wf(pre));
                                    assert(forall|t: int|
                                        0 <= t < pre.len() ==> msg_def_cache@[t] == pre[t]);
                                    assert(cache_wf(msg_def_cache@));
                                }
                            }
                        },
                        Err(e) => {
                            proof {
                                if cache_wf(cv0) {
                                    assert(spec_compile_sub(
                                        cur,
                                        lv,
                                        bv[k as int].0,
                                        bv[k as int].1,
                                    ) == Err::<Seq<(Seq<char>, MsgTypeV)>, RosError>(e));
                                    assert(spec_compile_subs(cur, lv, bv, k as int) == Err::<
                                        Seq<(Seq<char>, MsgTypeV)>,
                                        RosError,
                                    >(e));
                                }
                            }
                            return Err(e);
                        },
                    }
                } else {
                    proof {
                        if cache_wf(cv0) {
                            assert(spec_compile_sub(cur, lv, bv[k as int].0, bv[k as int].1)
                                == Ok::<Seq<(Seq<char>, MsgTypeV)>, RosError>(cur));
                        }
                    }
                }
            },
        }
        k = k - 1;
    }
    let lo = bounds[0].0;
    let hi = bounds[0].1;
    let (_primary_name, pmls) = parse_msg_def(&lines, lo, hi);
    let ns = namespace_of(con_type);
    match MsgType::try_from_parsed_lines(msg_def_cache, &pmls, ns.as_str()) {
        Ok(m) => {
            let ghost pre = msg_def_cache@;
            let ghost mv = crate::data_type::msg_type_view(m);
            let ret = m.duplicate();
            msg_def_cache.insert(String::from_str(con_type), m);
            proof {
                if cache_wf(cv0) {
                    assert(forall|t: int| 0 <= t < pre.len() ==> msg_def_cache@[t] == pre[t]);
                    assert(cache_wf(msg_def_cache@));
                }
            }
            Ok(ret)
        },
        Err(e) => Err(e),
    }
}

} // verus!
