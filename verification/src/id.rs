//! Identifiers of one to three text segments, and their form as one text.

use vstd::prelude::*;
use vstd::string::StringExecFns;
use vstd::string::StrSliceExecFns;
use vstd::std_specs::iter::IteratorSpec;
use vstd::utf8::encode_utf8;
use crate::text::{
    debug_of_text, debug_str, lemma_bytes_before_transitive, lemma_text_before_total, str_before,
    str_eq, text_before,
};

verus! {

/// The character that stands between the segments of an identifier written as
/// one text. A segment that holds it cannot be told from two segments.
pub const SEPARATOR: char = '/';

/// An identifier of one, two or three text segments.
#[derive(Copy, Clone, Ord, Eq, Hash, Debug)]
pub enum Ident<'a> {
    I1(&'a str),
    I2(&'a str, &'a str),
    I3(&'a str, &'a str, &'a str),
}

impl<'a> View for Ident<'a> {
    type V = Seq<Seq<char>>;

    /// The segments, first to last.
    open spec fn view(&self) -> Seq<Seq<char>> {
        match *self {
            Ident::I1(a) => seq![a@],
            Ident::I2(a, b) => seq![a@, b@],
            Ident::I3(a, b, c) => seq![a@, b@, c@],
        }
    }
}

/// A value that can key a registry. Two keys name the same entry where their
/// segments are the same.
pub trait Key: Sized {
    /// The segments of the key, first to last.
    spec fn segments(&self) -> Seq<Seq<char>>;

    /// The key as diagnostics show it.
    spec fn debug_text(&self) -> Seq<char>;

    /// Whether `other` has the same segments.
    fn same(&self, other: &Self) -> (r: bool)
        ensures
            r == (self.segments() == other.segments()),
    ;

    /// The key as diagnostics show it.
    fn to_debug(&self) -> (text: String)
        ensures
            text@ == self.debug_text(),
    ;

    /// The same key once more.
    fn duplicate(&self) -> (r: Self)
        ensures
            r == *self,
    ;
}

impl<'a> Key for &'a str {
    open spec fn segments(&self) -> Seq<Seq<char>> {
        seq![self@]
    }

    open spec fn debug_text(&self) -> Seq<char> {
        debug_of_text(self@)
    }

    fn same(&self, other: &Self) -> (r: bool) {
        let r = str_eq(*self, *other);
        assert(r == (self.segments() == other.segments())) by {
            if self.segments() == other.segments() {
                assert(self.segments()[0] == other.segments()[0]);
            }
        }
        r
    }

    fn to_debug(&self) -> (text: String) {
        debug_str(*self)
    }

    fn duplicate(&self) -> (r: Self) {
        *self
    }
}

impl Key for String {
    open spec fn segments(&self) -> Seq<Seq<char>> {
        seq![self@]
    }

    open spec fn debug_text(&self) -> Seq<char> {
        debug_of_text(self@)
    }

    fn same(&self, other: &Self) -> (r: bool) {
        let r = str_eq(self.as_str(), other.as_str());
        assert(r == (self.segments() == other.segments())) by {
            if self.segments() == other.segments() {
                assert(self.segments()[0] == other.segments()[0]);
            }
        }
        r
    }

    fn to_debug(&self) -> (text: String) {
        debug_str(self.as_str())
    }

    fn duplicate(&self) -> (r: Self) {
        self.clone()
    }
}

impl<'a> Key for Ident<'a> {
    open spec fn segments(&self) -> Seq<Seq<char>> {
        self@
    }

    open spec fn debug_text(&self) -> Seq<char> {
        match *self {
            Ident::I1(a) => "I1("@ + debug_of_text(a@) + ")"@,
            Ident::I2(a, b) => "I2("@ + debug_of_text(a@) + ", "@ + debug_of_text(b@) + ")"@,
            Ident::I3(a, b, c) => "I3("@ + debug_of_text(a@) + ", "@ + debug_of_text(b@) + ", "@
                + debug_of_text(c@) + ")"@,
        }
    }

    fn same(&self, other: &Self) -> (r: bool) {
        Ident::same(self, other)
    }

    fn to_debug(&self) -> (text: String) {
        match *self {
            Ident::I1(a) => {
                let mut text = String::from_str("I1(");
                text.append(debug_str(a).as_str());
                text.append(")");
                text
            },
            Ident::I2(a, b) => {
                let mut text = String::from_str("I2(");
                text.append(debug_str(a).as_str());
                text.append(", ");
                text.append(debug_str(b).as_str());
                text.append(")");
                text
            },
            Ident::I3(a, b, c) => {
                let mut text = String::from_str("I3(");
                text.append(debug_str(a).as_str());
                text.append(", ");
                text.append(debug_str(b).as_str());
                text.append(", ");
                text.append(debug_str(c).as_str());
                text.append(")");
                text
            },
        }
    }

    fn duplicate(&self) -> (r: Self) {
        *self
    }
}

/// A type with an identifier of type `I` that names it.
pub trait Id<I = Ident<'static>> {
    /// The identifier of this type.
    const ID: I;
}

/// A value whose concrete type has an identifier of type `I`.
pub trait IdObj<I = Ident<'static>> {
    /// The identifier of the concrete type of this value.
    fn id(&self) -> I;
}

impl<I, D: Id<I> + ?Sized> IdObj<I> for D {
    /// The identifier of the type of this value, whatever the value.
    fn id(&self) -> (id: I)
        ensures
            id == D::ID,
    {
        D::ID
    }
}

impl Id<&'static str> for () {
    const ID: &'static str = "()";
}

impl Id<&'static str> for bool {
    const ID: &'static str = "bool";
}

impl Id<&'static str> for char {
    const ID: &'static str = "char";
}

impl Id<&'static str> for u8 {
    const ID: &'static str = "u8";
}

impl Id<&'static str> for u16 {
    const ID: &'static str = "u16";
}

impl Id<&'static str> for u32 {
    const ID: &'static str = "u32";
}

impl Id<&'static str> for u64 {
    const ID: &'static str = "u64";
}

impl Id<&'static str> for u128 {
    const ID: &'static str = "u128";
}

impl Id<&'static str> for usize {
    const ID: &'static str = "usize";
}

impl Id<&'static str> for i8 {
    const ID: &'static str = "i8";
}

impl Id<&'static str> for i16 {
    const ID: &'static str = "i16";
}

impl Id<&'static str> for i32 {
    const ID: &'static str = "i32";
}

impl Id<&'static str> for i64 {
    const ID: &'static str = "i64";
}

impl Id<&'static str> for i128 {
    const ID: &'static str = "i128";
}

impl Id<&'static str> for isize {
    const ID: &'static str = "isize";
}

impl Id<&'static str> for str {
    const ID: &'static str = "str";
}

impl Id<&'static str> for String {
    const ID: &'static str = "String";
}

/// The segments written as one text, with the separator between neighbours.
pub open spec fn joined(segments: Seq<Seq<char>>) -> Seq<char>
    decreases segments.len(),
{
    if segments.len() == 0 {
        Seq::empty()
    } else if segments.len() == 1 {
        segments[0]
    } else {
        segments[0] + seq![SEPARATOR] + joined(segments.drop_first())
    }
}

/// The position of the first separator in `text`, if it holds one.
pub open spec fn first_separator(text: Seq<char>) -> Option<int> {
    if exists|i: int| is_first_separator(text, i) {
        Some(choose|i: int| is_first_separator(text, i))
    } else {
        None
    }
}

/// Whether `text` holds a separator at `i` and none before it.
pub open spec fn is_first_separator(text: Seq<char>, i: int) -> bool {
    &&& 0 <= i < text.len()
    &&& text[i] == SEPARATOR
    &&& forall|k: int| 0 <= k < i ==> text[k] != SEPARATOR
}

/// The segments that a text stands for: it is cut at its first separator, and
/// what follows at its first separator again. A third separator and all
/// after it belong to the third segment.
pub open spec fn split(text: Seq<char>) -> Seq<Seq<char>> {
    match first_separator(text) {
        None => seq![text],
        Some(i) => {
            let rest = text.skip(i + 1);
            match first_separator(rest) {
                None => seq![text.take(i), rest],
                Some(j) => seq![text.take(i), rest.take(j), rest.skip(j + 1)],
            }
        },
    }
}

/// Whether `a` comes before `b`, for two sequences of as many segments: they
/// stand as the first segments in which they differ.
pub open spec fn segments_before(a: Seq<Seq<char>>, b: Seq<Seq<char>>) -> bool
    decreases a.len(),
{
    if a.len() == 0 || b.len() == 0 {
        false
    } else if a[0] != b[0] {
        text_before(a[0], b[0])
    } else {
        segments_before(a.drop_first(), b.drop_first())
    }
}

/// Whether the identifier with the segments `a` comes before the one with the
/// segments `b`: one of fewer segments comes before one of more, and two of as
/// many stand as the first segments in which they differ.
pub open spec fn ident_before(a: Seq<Seq<char>>, b: Seq<Seq<char>>) -> bool {
    a.len() < b.len() || (a.len() == b.len() && segments_before(a, b))
}

/// Whether no character of `text` is the separator.
pub open spec fn separator_free(text: Seq<char>) -> bool {
    forall|k: int| 0 <= k < text.len() ==> text[k] != SEPARATOR
}

impl<'a> Ident<'a> {
    /// The number of segments.
    pub fn len(&self) -> (n: usize)
        ensures
            n == self@.len(),
            1 <= n <= 3,
    {
        match self {
            Ident::I1(_) => 1,
            Ident::I2(_, _) => 2,
            Ident::I3(_, _, _) => 3,
        }
    }

    /// This identifier with `other` as one more segment at its end.
    pub fn append(self, other: &'a str) -> (r: Ident<'a>)
        requires
            self@.len() < 3,
        ensures
            r@ == self@.push(other@),
    {
        match self {
            Ident::I1(a) => {
                let r = Ident::I2(a, other);
                assert(r@ =~= self@.push(other@));
                r
            },
            Ident::I2(a, b) => {
                let r = Ident::I3(a, b, other);
                assert(r@ =~= self@.push(other@));
                r
            },
            Ident::I3(_, _, _) => {
                assert(false);
                self
            },
        }
    }

    /// This identifier with the segments of `other` at its end.
    pub fn extend(self, other: Ident<'a>) -> (r: Ident<'a>)
        requires
            self@.len() + other@.len() <= 3,
        ensures
            r@ == self@ + other@,
    {
        match (self, other) {
            (Ident::I1(a), Ident::I1(b)) => {
                let r = Ident::I2(a, b);
                assert(r@ =~= self@ + other@);
                r
            },
            (Ident::I2(a, b), Ident::I1(c)) => {
                let r = Ident::I3(a, b, c);
                assert(r@ =~= self@ + other@);
                r
            },
            (Ident::I1(a), Ident::I2(b, c)) => {
                let r = Ident::I3(a, b, c);
                assert(r@ =~= self@ + other@);
                r
            },
            _ => {
                assert(false);
                self
            },
        }
    }

    /// The identifier as one text: its segments with the separator between
    /// neighbours.
    pub fn to_string(&self) -> (text: String)
        ensures
            text@ == joined(self@),
    {
        proof {
            reveal_strlit("/");
            assert("/"@ =~= seq![SEPARATOR]);
        }
        match *self {
            Ident::I1(a) => String::from_str(a),
            Ident::I2(a, b) => {
                let mut text = String::from_str(a);
                text.append("/");
                text.append(b);
                proof {
                    lemma_joined(a@, b@, b@);
                }
                text
            },
            Ident::I3(a, b, c) => {
                let mut text = String::from_str(a);
                text.append("/");
                text.append(b);
                text.append("/");
                text.append(c);
                proof {
                    lemma_joined(a@, b@, c@);
                    assert(text@ =~= joined(self@));
                }
                text
            },
        }
    }

    /// The identifier that `text` stands for. The segments borrow from `text`.
    pub fn parse(text: &'a str) -> (r: Ident<'a>)
        ensures
            r@ == split(text@),
    {
        match find_separator(text) {
            None => Ident::I1(text),
            Some(i) => {
                let total = text.unicode_len();
                let first = text.substring_char(0, i);
                let rest = text.substring_char(i + 1, total);
                assert(first@ =~= text@.take(i as int));
                assert(rest@ =~= text@.skip(i as int + 1));
                match find_separator(rest) {
                    None => Ident::I2(first, rest),
                    Some(j) => {
                        let rest_total = rest.unicode_len();
                        let second = rest.substring_char(0, j);
                        let third = rest.substring_char(j + 1, rest_total);
                        assert(second@ =~= rest@.take(j as int));
                        assert(third@ =~= rest@.skip(j as int + 1));
                        Ident::I3(first, second, third)
                    },
                }
            },
        }
    }

    /// Whether this identifier comes before `other`.
    pub fn before(&self, other: &Ident<'a>) -> (r: bool)
        ensures
            r == ident_before(self@, other@),
    {
        match (*self, *other) {
            (Ident::I1(a), Ident::I1(x)) => {
                proof {
                    lemma_segments_before(self@, other@);
                }
                str_before(a, x)
            },
            (Ident::I2(a, b), Ident::I2(x, y)) => {
                proof {
                    lemma_segments_before(self@, other@);
                    lemma_segments_before(self@.drop_first(), other@.drop_first());
                }
                if !str_eq(a, x) {
                    str_before(a, x)
                } else {
                    str_before(b, y)
                }
            },
            (Ident::I3(a, b, c), Ident::I3(x, y, z)) => {
                proof {
                    lemma_segments_before(self@, other@);
                    lemma_segments_before(self@.drop_first(), other@.drop_first());
                    lemma_segments_before(
                        self@.drop_first().drop_first(),
                        other@.drop_first().drop_first(),
                    );
                }
                if !str_eq(a, x) {
                    str_before(a, x)
                } else if !str_eq(b, y) {
                    str_before(b, y)
                } else {
                    str_before(c, z)
                }
            },
            (Ident::I1(_), _) => true,
            (Ident::I2(_, _), Ident::I3(_, _, _)) => true,
            _ => false,
        }
    }

    /// Whether `other` has the same segments.
    pub fn same(&self, other: &Ident<'a>) -> (r: bool)
        ensures
            r == (self@ == other@),
    {
        match (*self, *other) {
            (Ident::I1(a), Ident::I1(x)) => {
                let r = str_eq(a, x);
                assert(r == (self@ =~= other@)) by {
                    if self@ == other@ { assert(self@[0] == other@[0]); }
                }
                r
            },
            (Ident::I2(a, b), Ident::I2(x, y)) => {
                let r = str_eq(a, x) && str_eq(b, y);
                assert(r == (self@ =~= other@)) by {
                    if self@ == other@ {
                        assert(self@[0] == other@[0]);
                        assert(self@[1] == other@[1]);
                    }
                }
                r
            },
            (Ident::I3(a, b, c), Ident::I3(x, y, z)) => {
                let r = str_eq(a, x) && str_eq(b, y) && str_eq(c, z);
                assert(r == (self@ =~= other@)) by {
                    if self@ == other@ {
                        assert(self@[0] == other@[0]);
                        assert(self@[1] == other@[1]);
                        assert(self@[2] == other@[2]);
                    }
                }
                r
            },
            _ => {
                assert(self@.len() != other@.len());
                false
            },
        }
    }
}

/// The position of the first separator in `text`, counted in characters.
pub fn find_separator(text: &str) -> (found: Option<usize>)
    ensures
        match found {
            Some(i) => first_separator(text@) == Some(i as int) && is_first_separator(text@, i as int),
            None => first_separator(text@) == None::<int> && separator_free(text@),
        },
{
    let total = text.unicode_len();
    let mut rest = text.chars();
    let mut i: usize = 0;
    loop
        invariant
            total == text@.len(),
            i <= total,
            rest.remaining() == text@.skip(i as int),
            rest.obeys_prophetic_iter_laws(),
            forall|k: int| 0 <= k < i ==> text@[k] != SEPARATOR,
        decreases total - i,
    {
        match rest.next() {
            None => {
                proof {
                    assert(text@.skip(i as int).len() == 0);
                    lemma_no_separator(text@);
                }
                return None;
            },
            Some(c) => {
                assert(c == text@.skip(i as int)[0]);
                if c == SEPARATOR {
                    proof {
                        lemma_first_separator(text@, i as int);
                    }
                    return Some(i);
                }
                proof {
                    assert(text@.skip(i as int).drop_first() =~= text@.skip(i as int + 1));
                }
                i += 1;
            },
        }
    }
}

/// A text without a separator has no first separator.
pub proof fn lemma_no_separator(text: Seq<char>)
    requires
        separator_free(text),
    ensures
        first_separator(text) == None::<int>,
{
}

/// The first separator of a text is at one position only.
pub proof fn lemma_first_separator(text: Seq<char>, i: int)
    requires
        is_first_separator(text, i),
    ensures
        first_separator(text) == Some(i),
{
    let j = choose|j: int| is_first_separator(text, j);
    assert(is_first_separator(text, j));
    if j < i {
        assert(text[j] != SEPARATOR);
    }
    if i < j {
        assert(text[i] != SEPARATOR);
    }
}

/// The text of one, two and three segments, written out.
pub proof fn lemma_joined(a: Seq<char>, b: Seq<char>, c: Seq<char>)
    ensures
        joined(seq![a]) == a,
        joined(seq![a, b]) == a + seq![SEPARATOR] + b,
        joined(seq![a, b, c]) == a + seq![SEPARATOR] + (b + seq![SEPARATOR] + c),
{
    assert(joined(seq![a]) == a);
    assert(seq![a, b].drop_first() =~= seq![b]);
    assert(joined(seq![a, b]) == a + seq![SEPARATOR] + joined(seq![b]));
    assert(seq![b, c].drop_first() =~= seq![c]);
    assert(joined(seq![b, c]) == b + seq![SEPARATOR] + joined(seq![c]));
    assert(seq![a, b, c].drop_first() =~= seq![b, c]);
    assert(joined(seq![a, b, c]) == a + seq![SEPARATOR] + joined(seq![b, c]));
}

/// Whether `segments` can be read back from their text: there are one to three
/// of them, and only a third segment may hold the separator.
pub open spec fn readable(segments: Seq<Seq<char>>) -> bool {
    &&& 1 <= segments.len() <= 3
    &&& forall|k: int| 0 <= k < segments.len() && k < 2 ==> separator_free(#[trigger] segments[k])
}

/// Writing an identifier as text and reading the text gives the identifier
/// back, where only a third segment may hold the separator.
pub proof fn law_split_of_joined(segments: Seq<Seq<char>>)
    requires
        readable(segments),
    ensures
        split(joined(segments)) == segments,
{
    let text = joined(segments);
    let a = segments[0];
    assert(separator_free(a));
    if segments.len() == 1 {
        lemma_no_separator(text);
        assert(split(text) =~= segments);
    } else {
        let b = segments[1];
        assert(separator_free(b));
        let i = a.len() as int;
        let rest = text.skip(i + 1);
        if segments.len() == 2 {
            assert(segments =~= seq![a, b]);
            lemma_joined(a, b, b);
            lemma_cut(text, a, b);
            lemma_no_separator(rest);
            assert(split(text) =~= segments);
        } else {
            let c = segments[2];
            assert(segments =~= seq![a, b, c]);
            lemma_joined(a, b, c);
            lemma_cut(text, a, b + seq![SEPARATOR] + c);
            lemma_cut(rest, b, c);
            assert(split(text) =~= segments);
        }
    }
}

/// A text made of a part without separator, the separator and a rest is cut
/// between the part and the rest.
pub proof fn lemma_cut(text: Seq<char>, head: Seq<char>, rest: Seq<char>)
    requires
        separator_free(head),
        text == head + seq![SEPARATOR] + rest,
    ensures
        first_separator(text) == Some(head.len() as int),
        text.take(head.len() as int) == head,
        text.skip(head.len() as int + 1) == rest,
{
    let i = head.len() as int;
    assert(is_first_separator(text, i)) by {
        assert(text[i] == SEPARATOR);
        assert forall|k: int| 0 <= k < i implies text[k] != SEPARATOR by {
            assert(text[k] == head[k]);
        }
    }
    lemma_first_separator(text, i);
    assert(text.take(i) =~= head);
    assert(text.skip(i + 1) =~= rest);
}

/// Reading a text and writing the identifier gives the text back, and what
/// is read is an identifier that can be read back.
pub proof fn law_joined_of_split(text: Seq<char>)
    ensures
        joined(split(text)) == text,
        readable(split(text)),
{
    match first_separator(text) {
        None => {
            assert(joined(seq![text]) == text);
            if !separator_free(text) {
                lemma_has_first_separator(text);
            }
            assert(readable(seq![text]));
        },
        Some(i) => {
            assert(is_first_separator(text, i));
            let a = text.take(i);
            let rest = text.skip(i + 1);
            assert(separator_free(a));
            assert(text =~= a + seq![SEPARATOR] + rest);
            match first_separator(rest) {
                None => {
                    lemma_joined(a, rest, rest);
                    if !separator_free(rest) {
                        lemma_has_first_separator(rest);
                    }
                    assert(readable(seq![a, rest]));
                },
                Some(j) => {
                    assert(is_first_separator(rest, j));
                    let b = rest.take(j);
                    let c = rest.skip(j + 1);
                    assert(separator_free(b));
                    assert(rest =~= b + seq![SEPARATOR] + c);
                    lemma_joined(a, b, c);
                    assert(readable(seq![a, b, c]));
                },
            }
        },
    }
}

/// How two sequences of as many segments stand, written out by their first
/// segments.
pub proof fn lemma_segments_before(a: Seq<Seq<char>>, b: Seq<Seq<char>>)
    requires
        a.len() == b.len(),
    ensures
        segments_before(a, b) == if a.len() == 0 {
            false
        } else if a[0] != b[0] {
            text_before(a[0], b[0])
        } else {
            segments_before(a.drop_first(), b.drop_first())
        },
        a.len() == 1 ==> segments_before(a, b) == text_before(a[0], b[0]),
{
    if a.len() == 1 {
        lemma_text_before_total(a[0], b[0]);
        assert(!segments_before(a.drop_first(), b.drop_first()));
    }
}

/// The order of identifiers is total: of two identifiers with different
/// segments one comes before the other, and not both; none comes before
/// itself.
pub proof fn law_order_is_total(a: Seq<Seq<char>>, b: Seq<Seq<char>>)
    ensures
        a == b ==> !ident_before(a, b),
        a != b ==> (ident_before(a, b) <==> !ident_before(b, a)),
{
    if a.len() == b.len() {
        lemma_segments_total(a, b);
    }
}

/// Sequences of as many segments are in a total order.
proof fn lemma_segments_total(a: Seq<Seq<char>>, b: Seq<Seq<char>>)
    requires
        a.len() == b.len(),
    ensures
        a == b ==> !segments_before(a, b),
        a != b ==> (segments_before(a, b) <==> !segments_before(b, a)),
    decreases a.len(),
{
    if a.len() == 0 {
        assert(a =~= b);
    } else {
        lemma_text_before_total(a[0], b[0]);
        lemma_segments_total(a.drop_first(), b.drop_first());
        if a[0] == b[0] && a.drop_first() == b.drop_first() {
            assert(a =~= seq![a[0]] + a.drop_first());
            assert(b =~= seq![b[0]] + b.drop_first());
        }
    }
}

/// The order of identifiers is transitive.
pub proof fn law_order_is_transitive(a: Seq<Seq<char>>, b: Seq<Seq<char>>, c: Seq<Seq<char>>)
    requires
        ident_before(a, b),
        ident_before(b, c),
    ensures
        ident_before(a, c),
{
    if a.len() == b.len() && b.len() == c.len() {
        lemma_segments_transitive(a, b, c);
    }
}

/// The order of sequences of as many segments is transitive.
proof fn lemma_segments_transitive(a: Seq<Seq<char>>, b: Seq<Seq<char>>, c: Seq<Seq<char>>)
    requires
        a.len() == b.len(),
        b.len() == c.len(),
        segments_before(a, b),
        segments_before(b, c),
    ensures
        segments_before(a, c),
    decreases a.len(),
{
    if a.len() > 0 {
        lemma_text_before_total(a[0], b[0]);
        lemma_text_before_total(b[0], c[0]);
        lemma_text_before_total(a[0], c[0]);
        if a[0] == b[0] && b[0] == c[0] {
            lemma_segments_transitive(a.drop_first(), b.drop_first(), c.drop_first());
        } else if a[0] != b[0] && b[0] != c[0] {
            lemma_bytes_before_transitive(encode_utf8(a[0]), encode_utf8(b[0]), encode_utf8(c[0]));
        }
    }
}

/// A text that holds a separator has a first one.
pub proof fn lemma_has_first_separator(text: Seq<char>)
    requires
        !separator_free(text),
    ensures
        first_separator(text) is Some,
    decreases text.len(),
{
    let k = choose|k: int| 0 <= k < text.len() && text[k] == SEPARATOR;
    lemma_first_separator_before(text, k);
}

/// A text with a separator at `k` has its first separator at `k` or before.
proof fn lemma_first_separator_before(text: Seq<char>, k: int)
    requires
        0 <= k < text.len(),
        text[k] == SEPARATOR,
    ensures
        exists|i: int| is_first_separator(text, i),
    decreases k,
{
    if forall|m: int| 0 <= m < k ==> text[m] != SEPARATOR {
        assert(is_first_separator(text, k));
    } else {
        let m = choose|m: int| 0 <= m < k && text[m] == SEPARATOR;
        lemma_first_separator_before(text, m);
    }
}

} // verus!
