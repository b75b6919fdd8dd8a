//! The document tree.

use vstd::hash_map::StringHashMap;
use vstd::hash_set::StringHashSet;
use vstd::prelude::*;

verus! {

/// The attributes of an element: one value for each name.
pub type AttrMap = StringHashMap<String>;

/// A node of the document with the nodes below it.
pub struct Node {
    pub node_type: NodeType,
    pub children: Vec<Node>,
}

/// What a node is: an element, or text.  Text is styled and laid out as
/// what it is whether or not it has children; `Node::new_text` gives it
/// none.
pub enum NodeType {
    Element(ElementData),
    Text(String),
}

/// The tag name and the attributes of an element.
pub struct ElementData {
    pub tag_name: String,
    pub attributes: AttrMap,
}

impl Node {
    /// A text node, which has no children.
    pub fn new_text(data: String) -> (node: Node)
        ensures
            node.node_type == NodeType::Text(data),
            node.children@ == Seq::<Node>::empty(),
    {
        Node { children: Vec::new(), node_type: NodeType::Text(data) }
    }

    /// An element with these attributes and children.
    pub fn new_element(name: String, attrs: AttrMap, children: Vec<Node>) -> (node: Node)
        ensures
            node.node_type == NodeType::Element(
                ElementData { tag_name: name, attributes: attrs },
            ),
            node.children == children,
    {
        Node {
            children,
            node_type: NodeType::Element(ElementData { tag_name: name, attributes: attrs }),
        }
    }
}

/// Whether `word` is one of the pieces that `list` falls into when it is cut
/// at every space: a stretch of `list` without a space in it that is bounded
/// on each side by a space or by an end of `list`.  Two spaces in a row, or a
/// space at either end, bound an empty piece.
pub open spec fn is_piece(list: Seq<char>, word: Seq<char>) -> bool {
    exists|from: int, to: int| piece_at(list, word, from, to)
}

/// Whether `word` is the piece of `list` that starts at `from` and ends
/// before `to`.
pub open spec fn piece_at(list: Seq<char>, word: Seq<char>, from: int, to: int) -> bool {
    &&& 0 <= from <= to <= list.len()
    &&& #[trigger] list.subrange(from, to) == word
    &&& !word.contains(' ')
    &&& from == 0 || list[from - 1] == ' '
    &&& to == list.len() || list[to] == ' '
}

/// A space at `to` closes the piece that began at `start`: the pieces that
/// end at or before `to` are those that ended before `start`, and that one.
proof fn lemma_piece_closed(list: Seq<char>, start: int, to: int, before: Set<Seq<char>>)
    requires
        0 <= start <= to < list.len(),
        list[to] == ' ',
        start == 0 || list[start - 1] == ' ',
        forall|k: int| start <= k < to ==> list[k] != ' ',
        forall|word: Seq<char>| #[trigger]
            before.contains(word) <==> exists|from: int, end: int|
                piece_at(list, word, from, end) && end < start,
    ensures
        forall|word: Seq<char>| #[trigger]
            before.insert(list.subrange(start, to)).contains(word) <==> exists|
                from: int,
                end: int,
            |
                piece_at(list, word, from, end) && end < to + 1,
{
    let piece = list.subrange(start, to);
    assert(piece_at(list, piece, start, to));
    assert forall|word: Seq<char>| #[trigger]
        before.insert(piece).contains(word) implies exists|from: int, end: int|
        piece_at(list, word, from, end) && end < to + 1 by {
        if word == piece {
            assert(piece_at(list, word, start, to) && to < to + 1);
        } else {
            let (from, end) = choose|from: int, end: int|
                piece_at(list, word, from, end) && end < start;
            assert(piece_at(list, word, from, end) && end < to + 1);
        }
    }
    assert forall|word: Seq<char>|
        (exists|from: int, end: int|
            piece_at(list, word, from, end) && end < to + 1) implies #[trigger] before.insert(
        piece,
    ).contains(word) by {
        let (from, end) = choose|from: int, end: int|
            piece_at(list, word, from, end) && end < to + 1;
        lemma_piece_bounds(list, word, from, end, start, to);
        if end < start {
            assert(before.contains(word));
        }
    }
}

/// Between two neighbouring spaces, or a space and an end, lies one piece.
proof fn lemma_piece_bounds(
    list: Seq<char>,
    word: Seq<char>,
    from: int,
    end: int,
    start: int,
    to: int,
)
    requires
        piece_at(list, word, from, end),
        0 <= start <= to <= list.len(),
        start == 0 || list[start - 1] == ' ',
        to == list.len() || list[to] == ' ',
        forall|k: int| start <= k < to ==> list[k] != ' ',
        end <= to,
    ensures
        end < start || (from == start && end == to && word == list.subrange(start, to)),
{
    if end >= start {
        if end < to {
            assert(list[end] != ' ');
        }
        if from < start {
            assert(word[start - 1 - from] == list[start - 1]);
            assert(word.contains(' '));
        }
        if from > start {
            assert(list[from - 1] != ' ');
        }
    }
}

/// The end of the list closes the piece that began at `start`.
proof fn lemma_piece_last(list: Seq<char>, start: int, before: Set<Seq<char>>)
    requires
        0 <= start <= list.len(),
        start == 0 || list[start - 1] == ' ',
        forall|k: int| start <= k < list.len() ==> list[k] != ' ',
        forall|word: Seq<char>| #[trigger]
            before.contains(word) <==> exists|from: int, end: int|
                piece_at(list, word, from, end) && end < start,
    ensures
        forall|word: Seq<char>| #[trigger]
            before.insert(list.subrange(start, list.len() as int)).contains(word) <==> is_piece(
                list,
                word,
            ),
{
    let to = list.len() as int;
    let piece = list.subrange(start, to);
    assert(piece_at(list, piece, start, to));
    assert forall|word: Seq<char>| #[trigger] before.insert(piece).contains(word) implies is_piece(
        list,
        word,
    ) by {
        if word == piece {
            assert(piece_at(list, word, start, to));
        } else {
            let (from, end) = choose|from: int, end: int|
                piece_at(list, word, from, end) && end < start;
            assert(piece_at(list, word, from, end));
        }
    }
    assert forall|word: Seq<char>| is_piece(list, word) implies #[trigger] before.insert(
        piece,
    ).contains(word) by {
        let (from, end) = choose|from: int, end: int| piece_at(list, word, from, end);
        lemma_piece_bounds(list, word, from, end, start, to);
        if end < start {
            assert(before.contains(word));
        }
    }
}

impl ElementData {
    /// The value of the attribute `id`.
    pub open spec fn id_value(&self) -> Option<&String> {
        if self.attributes@.contains_key("id"@) {
            Some(&self.attributes@["id"@])
        } else {
            None
        }
    }

    /// The names in the attribute `class`, which separates them by spaces.
    pub open spec fn class_names(self) -> Set<Seq<char>> {
        if self.attributes@.contains_key("class"@) {
            Set::new(|word: Seq<char>| is_piece(self.attributes@["class"@]@, word))
        } else {
            Set::empty()
        }
    }

    /// The value of the attribute `id`, if there is one.
    pub fn id(&self) -> (id: Option<&String>)
        ensures
            id == self.id_value(),
    {
        self.attributes.get("id")
    }

    /// The names in the attribute `class`: the pieces that its value falls
    /// into when it is cut at every space.  Without the attribute there are
    /// none.
    pub fn classes(&self) -> (names: StringHashSet)
        ensures
            names@ == self.class_names(),
    {
        let mut names = StringHashSet::new();
        match self.attributes.get("class") {
            None => {
                assert(names@ =~= self.class_names());
            },
            Some(list) => {
                let text = list.as_str();
                let len = text.unicode_len();
                let mut start: usize = 0;
                let mut at: usize = 0;
                for c in chars: text.chars()
                    invariant
                        chars.seq() == text@,
                        len == text@.len(),
                        at == chars.index(),
                        start <= at <= len,
                        start == 0 || text@[start - 1] == ' ',
                        forall|k: int| start <= k < at ==> text@[k] != ' ',
                        forall|word: Seq<char>| #[trigger]
                            names@.contains(word) <==> exists|from: int, to: int|
                                piece_at(text@, word, from, to) && to < start,
                {
                    if c == ' ' {
                        let piece = text.substring_char(start, at);
                        proof {
                            lemma_piece_closed(text@, start as int, at as int, names@);
                        }
                        names.insert(piece.to_owned());
                        start = at + 1;
                    }
                    at = at + 1;
                }
                let piece = text.substring_char(start, len);
                proof {
                    lemma_piece_last(text@, start as int, names@);
                }
                names.insert(piece.to_owned());
                assert(names@ =~= self.class_names());
            },
        }
        names
    }
}

} // verus!
