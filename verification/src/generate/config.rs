//! Naming configuration: the character substitutions that turn a raw metadata
//! name into a namespace path, a flat identifier or a file-system segment.
use std::path::PathBuf;
use vstd::prelude::*;

verus! {

/// `std::path::PathBuf`, carried through as an opaque value.
#[verifier::external_type_specification]
#[verifier::external_body]
pub struct ExPathBuf(PathBuf);

pub struct GenerationConfig {
    pub source_path: PathBuf,
    pub header_path: PathBuf,
}

/// The punctuation of generic arity markers and nesting separators, which no
/// emitted identifier may keep.
pub open spec fn is_marker(c: char) -> bool {
    c == '<' || c == '>' || c == '`' || c == '/'
}

/// What one character of a raw name becomes, where `dot` stands for `.`.
pub open spec fn rename_char(c: char, dot: Seq<char>) -> Seq<char> {
    if is_marker(c) {
        seq!['_']
    } else if c == '.' {
        dot
    } else {
        seq![c]
    }
}

/// A raw name with every character renamed, in order.
pub open spec fn rename(s: Seq<char>, dot: Seq<char>) -> Seq<char>
    decreases s.len(),
{
    if s.len() == 0 {
        Seq::empty()
    } else {
        rename(s.drop_last(), dot) + rename_char(s.last(), dot)
    }
}

pub open spec fn spec_namespace_cpp(s: Seq<char>) -> Seq<char> {
    rename(s, seq![':', ':'])
}

pub open spec fn spec_name_cpp(s: Seq<char>) -> Seq<char> {
    rename(s, seq!['_'])
}

pub open spec fn spec_namespace_path(s: Seq<char>) -> Seq<char> {
    rename(s, seq!['/'])
}

pub open spec fn spec_path_name(s: Seq<char>) -> Seq<char> {
    rename(s, seq!['_'])
}

/// `s` with each occurrence of `from` replaced by `to`.
pub open spec fn replace_each(s: Seq<char>, from: char, to: Seq<char>) -> Seq<char>
    decreases s.len(),
{
    if s.len() == 0 {
        Seq::empty()
    } else {
        replace_each(s.drop_last(), from, to) + (if s.last() == from {
            to
        } else {
            seq![s.last()]
        })
    }
}

/// `str::replace` with a `char` pattern. Trusted: the result is the input with
/// every occurrence of `from` replaced by `to` and every other character kept
/// in place.
#[verifier::external_body]
fn replace_char(s: &str, from: char, to: &str) -> (r: String)
    ensures
        r@ == replace_each(s@, from, to@),
{
    s.replace(from, to)
}

proof fn lemma_replace_each_concat(a: Seq<char>, b: Seq<char>, from: char, to: Seq<char>)
    ensures
        replace_each(a + b, from, to) == replace_each(a, from, to) + replace_each(b, from, to),
    decreases b.len(),
{
    if b.len() == 0 {
        assert(a + b =~= a);
        assert(replace_each(b, from, to) =~= Seq::<char>::empty());
        assert(replace_each(a, from, to) + Seq::<char>::empty() =~= replace_each(a, from, to));
    } else {
        let ab = a + b;
        assert(ab.drop_last() =~= a + b.drop_last());
        assert(ab.last() == b.last());
        lemma_replace_each_concat(a, b.drop_last(), from, to);
        let tail = if b.last() == from {
            to
        } else {
            seq![b.last()]
        };
        assert(replace_each(ab, from, to) == replace_each(a + b.drop_last(), from, to) + tail);
        assert((replace_each(a, from, to) + replace_each(b.drop_last(), from, to)) + tail
            =~= replace_each(a, from, to) + (replace_each(b.drop_last(), from, to) + tail));
    }
}

proof fn lemma_replace_each_one(c: char, from: char, to: Seq<char>)
    ensures
        replace_each(seq![c], from, to) == (if c == from {
            to
        } else {
            seq![c]
        }),
{
    let s = seq![c];
    assert(s.drop_last() =~= Seq::<char>::empty());
    assert(replace_each(s.drop_last(), from, to) =~= Seq::<char>::empty());
    let tail = if c == from {
        to
    } else {
        seq![c]
    };
    assert(Seq::<char>::empty() + tail =~= tail);
}

/// The four marker replacements, in any order, followed by nothing else.
spec fn strip_markers(s: Seq<char>, m1: char, m2: char, m3: char, m4: char) -> Seq<char> {
    replace_each(
        replace_each(replace_each(replace_each(s, m1, seq!['_']), m2, seq!['_']), m3, seq!['_']),
        m4,
        seq!['_'],
    )
}

spec fn markers_in_some_order(m1: char, m2: char, m3: char, m4: char) -> bool {
    &&& is_marker(m1) && is_marker(m2) && is_marker(m3) && is_marker(m4)
    &&& m1 != m2 && m1 != m3 && m1 != m4 && m2 != m3 && m2 != m4 && m3 != m4
}

proof fn lemma_strip_markers_one(c: char, m1: char, m2: char, m3: char, m4: char)
    requires
        markers_in_some_order(m1, m2, m3, m4),
    ensures
        strip_markers(seq![c], m1, m2, m3, m4) == (if is_marker(c) {
            seq!['_']
        } else {
            seq![c]
        }),
{
    let u = seq!['_'];
    lemma_replace_each_one(c, m1, u);
    lemma_replace_each_one(c, m2, u);
    lemma_replace_each_one(c, m3, u);
    lemma_replace_each_one(c, m4, u);
    lemma_replace_each_one('_', m2, u);
    lemma_replace_each_one('_', m3, u);
    lemma_replace_each_one('_', m4, u);
}

proof fn lemma_strip_markers_concat(
    a: Seq<char>,
    b: Seq<char>,
    m1: char,
    m2: char,
    m3: char,
    m4: char,
)
    ensures
        strip_markers(a + b, m1, m2, m3, m4) == strip_markers(a, m1, m2, m3, m4) + strip_markers(
            b,
            m1,
            m2,
            m3,
            m4,
        ),
{
    let u = seq!['_'];
    lemma_replace_each_concat(a, b, m1, u);
    let a1 = replace_each(a, m1, u);
    let b1 = replace_each(b, m1, u);
    lemma_replace_each_concat(a1, b1, m2, u);
    let a2 = replace_each(a1, m2, u);
    let b2 = replace_each(b1, m2, u);
    lemma_replace_each_concat(a2, b2, m3, u);
    let a3 = replace_each(a2, m3, u);
    let b3 = replace_each(b2, m3, u);
    lemma_replace_each_concat(a3, b3, m4, u);
}

/// Stripping the markers first and replacing `.` last renames every character.
proof fn lemma_markers_then_dot(
    s: Seq<char>,
    m1: char,
    m2: char,
    m3: char,
    m4: char,
    dot: Seq<char>,
)
    requires
        markers_in_some_order(m1, m2, m3, m4),
    ensures
        replace_each(strip_markers(s, m1, m2, m3, m4), '.', dot) == rename(s, dot),
    decreases s.len(),
{
    if s.len() == 0 {
        assert(strip_markers(s, m1, m2, m3, m4) =~= Seq::<char>::empty());
    } else {
        let head = s.drop_last();
        let c = s.last();
        assert(s =~= head + seq![c]);
        lemma_markers_then_dot(head, m1, m2, m3, m4, dot);
        lemma_strip_markers_concat(head, seq![c], m1, m2, m3, m4);
        lemma_strip_markers_one(c, m1, m2, m3, m4);
        let sh = strip_markers(head, m1, m2, m3, m4);
        let sc = strip_markers(seq![c], m1, m2, m3, m4);
        lemma_replace_each_concat(sh, sc, '.', dot);
        lemma_replace_each_one(c, '.', dot);
        lemma_replace_each_one('_', '.', dot);
    }
}

/// Replacing `.` by `_` between the marker replacements gives the same name
/// as replacing it last.
proof fn lemma_dot_before_slash(s: Seq<char>)
    ensures
        replace_each(
            replace_each(
                replace_each(replace_each(replace_each(s, '<', seq!['_']), '>', seq!['_']), '`', seq!['_']),
                '.',
                seq!['_'],
            ),
            '/',
            seq!['_'],
        ) == rename(s, seq!['_']),
    decreases s.len(),
{
    let u = seq!['_'];
    if s.len() == 0 {
        assert(replace_each(s, '<', u) =~= Seq::<char>::empty());
    } else {
        let head = s.drop_last();
        let c = s.last();
        let one = seq![c];
        assert(s =~= head + one);
        lemma_dot_before_slash(head);
        lemma_replace_each_concat(head, one, '<', u);
        let h1 = replace_each(head, '<', u);
        let c1 = replace_each(one, '<', u);
        lemma_replace_each_concat(h1, c1, '>', u);
        let h2 = replace_each(h1, '>', u);
        let c2 = replace_each(c1, '>', u);
        lemma_replace_each_concat(h2, c2, '`', u);
        let h3 = replace_each(h2, '`', u);
        let c3 = replace_each(c2, '`', u);
        lemma_replace_each_concat(h3, c3, '.', u);
        let h4 = replace_each(h3, '.', u);
        let c4 = replace_each(c3, '.', u);
        lemma_replace_each_concat(h4, c4, '/', u);
        lemma_replace_each_one(c, '<', u);
        lemma_replace_each_one(c, '>', u);
        lemma_replace_each_one(c, '`', u);
        lemma_replace_each_one(c, '.', u);
        lemma_replace_each_one(c, '/', u);
        lemma_replace_each_one('_', '>', u);
        lemma_replace_each_one('_', '`', u);
        lemma_replace_each_one('_', '.', u);
        lemma_replace_each_one('_', '/', u);
    }
}

/// Renaming goes character by character: the name of a whole is the names
/// of its parts, one after the other.
pub proof fn lemma_rename_concat(a: Seq<char>, b: Seq<char>, dot: Seq<char>)
    ensures
        rename(a + b, dot) == rename(a, dot) + rename(b, dot),
    decreases b.len(),
{
    if b.len() == 0 {
        assert(a + b =~= a);
        assert(rename(a, dot) + rename(b, dot) =~= rename(a, dot));
    } else {
        let ab = a + b;
        assert(ab.drop_last() =~= a + b.drop_last());
        lemma_rename_concat(a, b.drop_last(), dot);
        assert((rename(a, dot) + rename(b.drop_last(), dot)) + rename_char(b.last(), dot) =~= rename(
            a,
            dot,
        ) + (rename(b.drop_last(), dot) + rename_char(b.last(), dot)));
    }
}

/// No emitted name keeps a marker or a `.`, as long as what stands for `.`
/// holds none.
pub proof fn lemma_rename_clean(s: Seq<char>, dot: Seq<char>, i: int)
    requires
        forall|k: int| 0 <= k < dot.len() ==> !is_marker(#[trigger] dot[k]) && dot[k] != '.',
        0 <= i < rename(s, dot).len(),
    ensures
        !is_marker(rename(s, dot)[i]),
        rename(s, dot)[i] != '.',
    decreases s.len(),
{
    if s.len() > 0 {
        let head = rename(s.drop_last(), dot);
        if i < head.len() {
            lemma_rename_clean(s.drop_last(), dot, i);
        } else {
            let tail = rename_char(s.last(), dot);
            assert(rename(s, dot)[i] == tail[i - head.len()]);
        }
    }
}

/// The flat identifier and the file-system segment of a raw name are the
/// same text.
pub proof fn lemma_name_is_path_name(s: Seq<char>)
    ensures
        spec_name_cpp(s) == spec_path_name(s),
{
}

impl GenerationConfig {
    /// The scoped declaration name of a raw name: markers become `_`, each `.`
    /// becomes `::`.
    pub fn namespace_cpp(&self, string: String) -> (r: String)
        ensures
            r@ == spec_namespace_cpp(string@),
    {
        proof {
            reveal_strlit("_");
            reveal_strlit("::");
            assert("_"@ =~= seq!['_']);
            assert("::"@ =~= seq![':', ':']);
            lemma_markers_then_dot(string@, '<', '>', '`', '/', seq![':', ':']);
        }
        let a = replace_char(string.as_str(), '<', "_");
        let b = replace_char(a.as_str(), '>', "_");
        let c = replace_char(b.as_str(), '`', "_");
        let d = replace_char(c.as_str(), '/', "_");
        replace_char(d.as_str(), '.', "::")
    }

    /// The flat identifier of a raw name: markers and `.` become `_`.
    pub fn name_cpp(&self, string: String) -> (r: String)
        ensures
            r@ == spec_name_cpp(string@),
    {
        proof {
            reveal_strlit("_");
            assert("_"@ =~= seq!['_']);
            lemma_markers_then_dot(string@, '<', '`', '>', '/', seq!['_']);
        }
        let a = replace_char(string.as_str(), '<', "_");
        let b = replace_char(a.as_str(), '`', "_");
        let c = replace_char(b.as_str(), '>', "_");
        let d = replace_char(c.as_str(), '/', "_");
        replace_char(d.as_str(), '.', "_")
    }

    /// The directory path of a namespace: markers become `_`, each `.`
    /// becomes `/`.
    pub fn namespace_path(&self, string: String) -> (r: String)
        ensures
            r@ == spec_namespace_path(string@),
    {
        proof {
            reveal_strlit("_");
            reveal_strlit("/");
            assert("_"@ =~= seq!['_']);
            assert("/"@ =~= seq!['/']);
            lemma_markers_then_dot(string@, '<', '>', '`', '/', seq!['/']);
        }
        let a = replace_char(string.as_str(), '<', "_");
        let b = replace_char(a.as_str(), '>', "_");
        let c = replace_char(b.as_str(), '`', "_");
        let d = replace_char(c.as_str(), '/', "_");
        replace_char(d.as_str(), '.', "/")
    }

    /// The file-system segment of a raw name: markers and `.` become `_`.
    pub fn path_name(&self, string: String) -> (r: String)
        ensures
            r@ == spec_path_name(string@),
    {
        proof {
            reveal_strlit("_");
            assert("_"@ =~= seq!['_']);
            lemma_dot_before_slash(string@);
        }
        let a = replace_char(string.as_str(), '<', "_");
        let b = replace_char(a.as_str(), '>', "_");
        let c = replace_char(b.as_str(), '`', "_");
        let d = replace_char(c.as_str(), '.', "_");
        replace_char(d.as_str(), '/', "_")
    }
}

} // verus!
