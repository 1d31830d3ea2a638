//! Document-tree data model: element and text nodes with attributes.

use vstd::prelude::*;

verus! {

/// An element's attributes, as ordered (name, value) pairs; the first
/// binding of a name wins on lookup.
pub type AttrMap = Vec<(String, String)>;

/// One node of the document tree with its ordered children.
#[derive(Debug)]
pub struct Node {
    pub children: Vec<Node>,
    pub node_type: NodeType,
}

/// A node is either raw text or an element.
#[derive(Debug)]
pub enum NodeType {
    Text(String),
    Element(ElementData),
}

/// The tag name and attributes of an element node.
#[derive(Debug)]
pub struct ElementData {
    pub tag_name: String,
    pub attributes: AttrMap,
}

/// The value bound to `key` in an attribute list: the first pair whose
/// name equals `key`, if any.
pub open spec fn spec_attr(attrs: Seq<(String, String)>, key: Seq<char>) -> Option<Seq<char>>
    decreases attrs.len(),
{
    if attrs.len() == 0 {
        None
    } else if attrs[0].0@ == key {
        Some(attrs[0].1@)
    } else {
        spec_attr(attrs.drop_first(), key)
    }
}

/// The pieces of `s` split at every single space character, in order,
/// empty pieces included; there is always at least one piece.
pub open spec fn spec_split(s: Seq<char>) -> Seq<Seq<char>>
    decreases s.len(),
{
    if s.len() == 0 {
        seq![Seq::<char>::empty()]
    } else if s[0] == ' ' {
        seq![Seq::<char>::empty()] + spec_split(s.drop_first())
    } else {
        let r = spec_split(s.drop_first());
        seq![seq![s[0]] + r[0]] + r.drop_first()
    }
}

/// The set of class names of an element: its `class` attribute split on
/// spaces, or nothing when the attribute is absent.
pub open spec fn spec_classes(elem: ElementData) -> Seq<Seq<char>> {
    match spec_attr(elem.attributes@, "class"@) {
        Some(v) => spec_split(v),
        None => Seq::empty(),
    }
}

/// String equality by contents.
pub fn str_eq(a: &str, b: &str) -> (r: bool)
    ensures
        r == (a@ == b@),
{
    let x = a.to_owned();
    let y = b.to_owned();
    x == y
}

/// The first binding of `key` in `attrs`, if any.
pub fn get_attr<'a>(attrs: &'a AttrMap, key: &str) -> (r: Option<&'a String>)
    ensures
        match r {
            Some(v) => spec_attr(attrs@, key@) == Some(v@),
            None => spec_attr(attrs@, key@) is None,
        },
{
    let mut i: usize = 0;
    assert(attrs@.skip(0) =~= attrs@);
    while i < attrs.len()
        invariant
            i <= attrs@.len(),
            spec_attr(attrs@, key@) == spec_attr(attrs@.skip(i as int), key@),
        decreases attrs@.len() - i,
    {
        assert(attrs@.skip(i as int)[0] == attrs@[i as int]);
        if str_eq(attrs[i].0.as_str(), key) {
            return Some(&attrs[i].1);
        }
        assert(attrs@.skip(i as int).drop_first() =~= attrs@.skip(i + 1));
        i = i + 1;
    }
    assert(attrs@.skip(i as int).len() == 0);
    None
}

impl Node {
    /// A text node with no children.
    pub fn text(data: String) -> (r: Node)
        ensures
            r.children@.len() == 0,
            r.node_type == NodeType::Text(data),
    {
        Node { children: Vec::new(), node_type: NodeType::Text(data) }
    }

    /// An element node with the given tag name, attributes and children.
    pub fn elem(name: String, attrs: AttrMap, children: Vec<Node>) -> (r: Node)
        ensures
            r.children == children,
            r.node_type == NodeType::Element(ElementData { tag_name: name, attributes: attrs }),
    {
        Node {
            children,
            node_type: NodeType::Element(ElementData { tag_name: name, attributes: attrs }),
        }
    }
}

impl ElementData {
    /// The element's `id` attribute, if present.
    pub fn id<'a>(&'a self) -> (r: Option<&'a String>)
        ensures
            match r {
                Some(v) => spec_attr(self.attributes@, "id"@) == Some(v@),
                None => spec_attr(self.attributes@, "id"@) is None,
            },
    {
        get_attr(&self.attributes, "id")
    }

    /// The element's class names: the `class` attribute split on spaces,
    /// empty when the attribute is absent.
    pub fn classes(&self) -> (r: Vec<String>)
        ensures
            r@.map_values(|s: String| s@) == spec_classes(*self),
    {
        match get_attr(&self.attributes, "class") {
            Some(list) => split_spaces(list.as_str()),
            None => {
                let r: Vec<String> = Vec::new();
                assert(r@.map_values(|s: String| s@) =~= Seq::<Seq<char>>::empty());
                r
            },
        }
    }
}

/// `spec_split` of a space-free sequence is that one piece.
proof fn lemma_split_no_space(s: Seq<char>)
    requires
        !s.contains(' '),
    ensures
        spec_split(s) == seq![s],
    decreases s.len(),
{
    if s.len() == 0 {
        assert(spec_split(s) =~~= seq![s]);
    } else {
        assert(s[0] != ' ') by {
            assert(s.contains(s[0]));
        }
        assert(!s.drop_first().contains(' ')) by {
            if s.drop_first().contains(' ') {
                let j = choose|j: int| 0 <= j < s.drop_first().len() && s.drop_first()[j] == ' ';
                assert(s[j + 1] == ' ');
            }
        }
        lemma_split_no_space(s.drop_first());
        assert(spec_split(s) =~= seq![s]) by {
            assert(seq![s[0]] + s.drop_first() =~= s);
        }
    }
}

/// Splitting `w + " " + rest` where `w` is space-free yields `w` followed
/// by the split of `rest`.
proof fn lemma_split_step(s: Seq<char>, w: Seq<char>, rest: Seq<char>)
    requires
        !w.contains(' '),
        s == w + seq![' '] + rest,
    ensures
        spec_split(s) == seq![w] + spec_split(rest),
    decreases w.len(),
{
    if w.len() == 0 {
        assert(s[0] == ' ');
        assert(s.drop_first() =~= rest);
        assert(spec_split(s) =~~= seq![w] + spec_split(rest));
    } else {
        assert(s[0] == w[0]);
        assert(w[0] != ' ') by {
            assert(w.contains(w[0]));
        }
        assert(!w.drop_first().contains(' ')) by {
            if w.drop_first().contains(' ') {
                let j = choose|j: int|
                    0 <= j < w.drop_first().len() && w.drop_first()[j] == ' ';
                assert(w[j + 1] == ' ');
            }
        }
        assert(s.drop_first() =~= w.drop_first() + seq![' '] + rest);
        lemma_split_step(s.drop_first(), w.drop_first(), rest);
        let r = spec_split(s.drop_first());
        assert(r[0] == w.drop_first());
        assert(r.drop_first() =~= spec_split(rest));
        assert(seq![s[0]] + r[0] =~= w);
        assert(spec_split(s) =~~= seq![w] + spec_split(rest));
    }
}

/// The concatenation of pieces with a single space after each piece.
pub open spec fn joined(pieces: Seq<Seq<char>>) -> Seq<char>
    decreases pieces.len(),
{
    if pieces.len() == 0 {
        Seq::empty()
    } else {
        joined(pieces.drop_last()) + pieces.last() + seq![' ']
    }
}

proof fn lemma_joined_push(pieces: Seq<Seq<char>>, w: Seq<char>)
    ensures
        joined(pieces.push(w)) == joined(pieces) + w + seq![' '],
{
    assert(pieces.push(w).drop_last() =~= pieces);
    assert(pieces.push(w).last() == w);
}

/// Split a string at every single space character; empty pieces are kept.
pub fn split_spaces(s: &str) -> (r: Vec<String>)
    ensures
        r@.map_values(|p: String| p@) == spec_split(s@),
{
    let ghost full: Seq<char> = s@;
    let n: usize = s.unicode_len();
    let mut pieces: Vec<String> = Vec::new();
    let mut word = String::new();
    let mut i: usize = 0;
    proof {
        assert(pieces@.map_values(|p: String| p@) =~= Seq::<Seq<char>>::empty());
        assert(full.subrange(0, 0) =~= Seq::<char>::empty());
        assert(full.subrange(0, full.len() as int) =~= full);
    }
    while i < n
        invariant
            n == full.len(),
            s@ == full,
            i <= n,
            !word@.contains(' '),
            word@.len() <= i,
            word@ == full.subrange(i as int - word@.len(), i as int),
            full.subrange(0, i as int) == joined(pieces@.map_values(|p: String| p@)) + word@,
            spec_split(full) == pieces@.map_values(|p: String| p@) + spec_split(
                full.subrange(i as int - word@.len(), full.len() as int),
            ),
        decreases n - i,
    {
        let c = s.get_char(i);
        if c == ' ' {
            let ghost prev = pieces@.map_values(|p: String| p@);
            let ghost tail = full.subrange(i as int - word@.len(), full.len() as int);
            let ghost rest = full.subrange(i as int + 1, full.len() as int);
            proof {
                assert(tail =~= word@ + seq![' '] + rest);
                lemma_split_step(tail, word@, rest);
            }
            let done = word;
            word = String::new();
            pieces.push(done);
            proof {
                assert(pieces@.map_values(|p: String| p@) =~= prev.push(done@));
                lemma_joined_push(prev, done@);
                assert(full.subrange(0, i as int + 1) =~= joined(prev) + done@ + seq![' ']);
                assert(spec_split(full) =~= pieces@.map_values(|p: String| p@) + spec_split(rest));
                assert(full.subrange(i as int + 1 - word@.len(), full.len() as int) == rest);
                assert(full.subrange(i as int + 1 - word@.len(), i as int + 1) =~= word@);
            }
        } else {
            let ghost prev_word = word@;
            let piece = s.substring_char(i, i + 1);
            assert(piece@ =~= seq![c]);
            word.append(piece);
            proof {
                assert(word@ == prev_word + seq![c]);
                assert forall|j: int| 0 <= j < word@.len() implies word@[j] != ' ' by {
                    if j < prev_word.len() {
                        assert(word@[j] == prev_word[j]);
                        assert(prev_word[j] != ' ') by {
                            if prev_word[j] == ' ' {
                                assert(prev_word.contains(' '));
                            }
                        }
                    } else {
                        assert(word@[j] == c);
                    }
                }
                assert(!word@.contains(' ')) by {
                    if word@.contains(' ') {
                        let j = choose|j: int| 0 <= j < word@.len() && word@[j] == ' ';
                    }
                }
                assert(word@ =~= full.subrange(i as int + 1 - word@.len(), i as int + 1));
                assert(full.subrange(0, i as int + 1) =~= full.subrange(0, i as int) + seq![c]);
                assert(full.subrange(0, i as int + 1) == joined(
                    pieces@.map_values(|p: String| p@),
                ) + word@);
                assert(i as int + 1 - word@.len() == i as int - prev_word.len());
            }
        }
        i = i + 1;
    }
    let ghost tail = full.subrange(i as int - word@.len(), full.len() as int);
    proof {
        assert(tail =~= word@);
        lemma_split_no_space(word@);
    }
    let ghost prev = pieces@.map_values(|p: String| p@);
    pieces.push(word);
    proof {
        assert(pieces@.map_values(|p: String| p@) =~= prev.push(pieces@.last()@));
        assert(spec_split(full) =~= pieces@.map_values(|p: String| p@));
    }
    pieces
}

} // verus!
