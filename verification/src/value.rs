//! The tagged value type held by a SLOP document's entries, with its
//! text renderings.

use vstd::prelude::*;
use crate::text::{chars_of_str, string_from_chars};

verus! {

/// The value of one SLOP entry: a single text line, or an ordered list of
/// text lines.
#[derive(Debug, Clone, PartialEq, Eq)]
pub enum SlopValue {
    /// The value of a string key-value entry.
    String(String),
    /// The value of a list key-value entry: its items, in source order.
    List(Vec<String>),
}

/// The mathematical shape of a [`SlopValue`].
pub ghost enum ValueModel {
    Str(Seq<char>),
    List(Seq<Seq<char>>),
}

/// The view of each string of `ss`, as a sequence of character sequences.
pub open spec fn strs_view(ss: Seq<String>) -> Seq<Seq<char>> {
    ss.map_values(|s: String| s@)
}

impl View for SlopValue {
    type V = ValueModel;

    open spec fn view(&self) -> ValueModel {
        match self {
            SlopValue::String(s) => ValueModel::Str(s@),
            SlopValue::List(l) => ValueModel::List(strs_view(l@)),
        }
    }
}

/// The items of `items` concatenated with `sep` between each adjacent pair.
pub open spec fn join_sep(items: Seq<Seq<char>>, sep: Seq<char>) -> Seq<char>
    decreases items.len(),
{
    if items.len() == 0 {
        Seq::empty()
    } else if items.len() == 1 {
        items[0]
    } else {
        items[0] + sep + join_sep(items.drop_first(), sep)
    }
}

/// Extending a join by one item appends one separator and the item.
pub proof fn lemma_join_sep_take(items: Seq<Seq<char>>, sep: Seq<char>, i: int)
    requires
        1 <= i < items.len(),
    ensures
        join_sep(items.take(i + 1), sep) == join_sep(items.take(i), sep) + sep + items[i],
    decreases i,
{
    let d = items.drop_first();
    if i == 1 {
        assert(items.take(2).drop_first() =~= seq![items[1]]);
        assert(items.take(2)[0] == items[0]);
        assert(items.take(1) =~= seq![items[0]]);
        assert(join_sep(seq![items[1]], sep) == items[1]);
        assert(join_sep(items.take(2), sep) == items[0] + sep + items[1]);
    } else {
        assert(items.take(i + 1).drop_first() =~= d.take(i));
        assert(items.take(i).drop_first() =~= d.take(i - 1));
        lemma_join_sep_take(d, sep, i - 1);
        assert(d.take(i)[0] == items[1]);
        assert(d[i - 1] == items[i]);
        assert(join_sep(items.take(i + 1), sep) == items[0] + sep + join_sep(d.take(i), sep));
        assert(join_sep(items.take(i), sep) == items[0] + sep + join_sep(d.take(i - 1), sep));
        assert(items[0] + sep + (join_sep(d.take(i - 1), sep) + sep + items[i]) =~= (items[0] + sep
            + join_sep(d.take(i - 1), sep)) + sep + items[i]);
    }
}

/// The compact text of a value, as it follows its key on a line: `=` then
/// the text for a string value; a brace-enclosed block with one item per
/// line for a list value.
pub open spec fn render_value(v: ValueModel) -> Seq<char> {
    match v {
        ValueModel::Str(s) => seq!['='] + s,
        ValueModel::List(items) => seq!['{', '\n'] + join_sep(items, seq!['\n']) + seq!['\n', '}'],
    }
}

/// The pretty text of a value: as [`render_value`], but each list item is
/// indented by four spaces.
pub open spec fn render_value_pretty(v: ValueModel) -> Seq<char> {
    match v {
        ValueModel::Str(s) => seq!['='] + s,
        ValueModel::List(items) => seq!['{', '\n', ' ', ' ', ' ', ' '] + join_sep(
            items,
            seq!['\n', ' ', ' ', ' ', ' '],
        ) + seq!['\n', '}'],
    }
}

/// Appends the characters of `s` to `out`.
pub(crate) fn push_str_chars(out: &mut Vec<char>, s: &str)
    ensures
        final(out)@ == old(out)@ + s@,
{
    let cs = chars_of_str(s);
    out.extend_from_slice(cs.as_slice());
}

/// The items of `items` joined with the characters of `sep` between them.
fn join_chars(items: &Vec<String>, sep: &Vec<char>) -> (r: Vec<char>)
    ensures
        r@ == join_sep(strs_view(items@), sep@),
{
    let ghost model = strs_view(items@);
    let mut out: Vec<char> = Vec::new();
    let mut i: usize = 0;
    proof {
        assert(model.take(0) =~= Seq::<Seq<char>>::empty());
    }
    while i < items.len()
        invariant
            i <= items@.len(),
            model == strs_view(items@),
            out@ == join_sep(model.take(i as int), sep@),
        decreases items@.len() - i,
    {
        if i > 0 {
            out.extend_from_slice(sep.as_slice());
            push_str_chars(&mut out, items[i].as_str());
            proof {
                lemma_join_sep_take(model, sep@, i as int);
            }
        } else {
            push_str_chars(&mut out, items[i].as_str());
            proof {
                assert(model.take(1) =~= seq![model[0]]);
                assert(Seq::<char>::empty() + model[0] =~= model[0]);
            }
        }
        i += 1;
    }
    proof {
        assert(model.take(items@.len() as int) =~= model);
    }
    out
}

impl SlopValue {
    /// Whether this value is the string variant.
    pub fn is_string(&self) -> (r: bool)
        ensures
            r == (self@ is Str),
    {
        match self {
            SlopValue::String(_) => true,
            SlopValue::List(_) => false,
        }
    }

    /// Whether this value is the list variant.
    pub fn is_list(&self) -> (r: bool)
        ensures
            r == (self@ is List),
    {
        match self {
            SlopValue::String(_) => false,
            SlopValue::List(_) => true,
        }
    }

    /// The contained string, or `None` if this value is a list.
    pub fn string(&self) -> (r: Option<&String>)
        ensures
            match r {
                Some(s) => self@ == ValueModel::Str(s@),
                None => self@ is List,
            },
    {
        match self {
            SlopValue::String(s) => Some(s),
            SlopValue::List(_) => None,
        }
    }

    /// The contained list, or `None` if this value is a string.
    pub fn list(&self) -> (r: Option<&Vec<String>>)
        ensures
            match r {
                Some(l) => self@ == ValueModel::List(strs_view(l@)),
                None => self@ is Str,
            },
    {
        match self {
            SlopValue::String(_) => None,
            SlopValue::List(l) => Some(l),
        }
    }

    /// The characters of this value's rendering; compact, or pretty when
    /// `pretty` is set.
    pub(crate) fn render_chars(&self, pretty: bool) -> (r: Vec<char>)
        ensures
            r@ == if pretty {
                render_value_pretty(self@)
            } else {
                render_value(self@)
            },
    {
        match self {
            SlopValue::String(s) => {
                let mut out: Vec<char> = Vec::new();
                out.push('=');
                proof {
                    assert(out@ =~= seq!['=']);
                }
                push_str_chars(&mut out, s.as_str());
                out
            },
            SlopValue::List(l) => {
                let mut sep: Vec<char> = Vec::new();
                sep.push('\n');
                let mut out: Vec<char> = Vec::new();
                out.push('{');
                out.push('\n');
                if pretty {
                    sep.push(' ');
                    sep.push(' ');
                    sep.push(' ');
                    sep.push(' ');
                    out.push(' ');
                    out.push(' ');
                    out.push(' ');
                    out.push(' ');
                    proof {
                        assert(sep@ =~= seq!['\n', ' ', ' ', ' ', ' ']);
                        assert(out@ =~= seq!['{', '\n', ' ', ' ', ' ', ' ']);
                    }
                } else {
                    proof {
                        assert(sep@ =~= seq!['\n']);
                        assert(out@ =~= seq!['{', '\n']);
                    }
                }
                let ghost head = out@;
                let body = join_chars(l, &sep);
                out.extend_from_slice(body.as_slice());
                out.push('\n');
                out.push('}');
                proof {
                    assert(out@ =~= head + body@ + seq!['\n', '}']);
                }
                out
            },
        }
    }

    /// The compact rendering of this value, as it follows its key.
    pub fn to_string(&self) -> (r: String)
        ensures
            r@ == render_value(self@),
    {
        let cs = self.render_chars(false);
        string_from_chars(&cs)
    }

    /// The pretty rendering of this value: list items are indented by four
    /// spaces.
    pub fn to_string_pretty(&self) -> (r: String)
        ensures
            r@ == render_value_pretty(self@),
    {
        let cs = self.render_chars(true);
        string_from_chars(&cs)
    }
}

impl From<String> for SlopValue {
    /// Wraps `value` as a string value.
    fn from(value: String) -> (r: Self) {
        SlopValue::String(value)
    }
}

impl vstd::std_specs::convert::FromSpecImpl<String> for SlopValue {
    open spec fn obeys_from_spec() -> bool {
        true
    }

    open spec fn from_spec(value: String) -> Self {
        SlopValue::String(value)
    }
}

impl From<Vec<String>> for SlopValue {
    /// Wraps `value` as a list value.
    fn from(value: Vec<String>) -> (r: Self) {
        SlopValue::List(value)
    }
}

impl vstd::std_specs::convert::FromSpecImpl<Vec<String>> for SlopValue {
    open spec fn obeys_from_spec() -> bool {
        true
    }

    open spec fn from_spec(value: Vec<String>) -> Self {
        SlopValue::List(value)
    }
}

} // verus!
