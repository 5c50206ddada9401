//! Timed lyrics in TTML: which words go to which voice, and the song's named sections.
use crate::chars::{blank, chars_of, is_blank, same_text, split_words, whitespace, words};
use crate::clocks::{clock_text, clock_value};
use crate::lyrics::{label_text, section_label};
use vstd::prelude::*;
use vstd::string::*;

verus! {

/// A node of a parsed XML document, as the lyrics reader reads it: whether it is an element
/// and whether a text node, its local tag name (empty but for elements), its attributes as
/// local names and values, in order, the place of its parent in the document, and its text.
pub struct XmlNode {
    pub element: bool,
    pub text_node: bool,
    pub name: String,
    pub attributes: Vec<(String, String)>,
    pub parent: Option<usize>,
    pub text: Option<String>,
}

/// A node of a parsed XML document, as plain values.
pub struct NodeView {
    pub element: bool,
    pub text_node: bool,
    pub name: Seq<char>,
    pub attributes: Seq<(Seq<char>, Seq<char>)>,
    pub parent: Option<usize>,
    pub text: Option<Seq<char>>,
}

impl View for XmlNode {
    type V = NodeView;

    open spec fn view(&self) -> NodeView {
        NodeView {
            element: self.element,
            text_node: self.text_node,
            name: self.name@,
            attributes: self.attributes@.map_values(|a: (String, String)| (a.0@, a.1@)),
            parent: self.parent,
            text: match self.text {
                Some(t) => Some(t@),
                None => None,
            },
        }
    }
}

/// The views of the nodes of a document.
pub open spec fn node_views(nodes: Seq<XmlNode>) -> Seq<NodeView> {
    nodes.map_values(|node: XmlNode| node@)
}

/// What `roxmltree::Document::parse` gives for a text, its nodes listed in document order
/// (the order of `Document::descendants`, where a node's place is its id): `None` when the
/// text is not well-formed XML.
pub uninterp spec fn xml_nodes(source: Seq<char>) -> Option<Seq<NodeView>>;

/// Calls `roxmltree::Document::parse` and lists the document's nodes in document order, each
/// with what `Node::is_element`, `is_text`, `tag_name().name()`, `attributes()` (`name()` and
/// `value()`), `parent()` (as its id) and `text()` give.  The nodes depend on the text alone;
/// which they are is left to the name `xml_nodes`.
#[verifier::external_body]
fn parse_xml(source: &str) -> (nodes: Option<Vec<XmlNode>>)
    ensures
        match nodes {
            Some(list) => xml_nodes(source@) == Some(node_views(list@)),
            None => xml_nodes(source@) is None,
        },
{
    let document = roxmltree::Document::parse(source).ok()?;
    let nodes = document.descendants().map(|node| XmlNode {
        element: node.is_element(),
        text_node: node.is_text(),
        name: node.tag_name().name().to_owned(),
        attributes: node.attributes().map(|a| (a.name().to_owned(), a.value().to_owned())).collect(),
        parent: node.parent().map(|parent| parent.id().get_usize()),
        text: node.text().map(str::to_owned),
    });
    Some(nodes.collect())
}

/// The value of a node's first attribute with the local name `key`.
pub open spec fn attribute(node: NodeView, key: Seq<char>) -> Option<Seq<char>>
    decreases node.attributes.len(),
{
    if node.attributes.len() == 0 {
        None
    } else if node.attributes[0].0 == key {
        Some(node.attributes[0].1)
    } else {
        attribute(NodeView { attributes: node.attributes.drop_first(), ..node }, key)
    }
}

/// The nodes from `index` up through its ancestors to the root, as `Node::ancestors` walks
/// them (a parent is always listed before its children).
pub open spec fn ancestors(nodes: Seq<NodeView>, index: int) -> Seq<int>
    decreases index,
{
    if index < 0 || index >= nodes.len() {
        Seq::empty()
    } else {
        match nodes[index].parent {
            Some(p) => if p < index {
                seq![index] + ancestors(nodes, p as int)
            } else {
                seq![index]
            },
            None => seq![index],
        }
    }
}

/// The first value of the attribute `key` along a node's ancestors, itself first.
pub open spec fn inherited(nodes: Seq<NodeView>, chain: Seq<int>, key: Seq<char>) -> Option<Seq<char>>
    decreases chain.len(),
{
    if chain.len() == 0 {
        None
    } else {
        match attribute(nodes[chain[0]], key) {
            Some(value) => Some(value),
            None => inherited(nodes, chain.drop_first(), key),
        }
    }
}

/// The roles along a node's ancestors: the whitespace-separated words of each `role`
/// attribute, the node's own first.
pub open spec fn roles(nodes: Seq<NodeView>, chain: Seq<int>) -> Seq<Seq<char>>
    decreases chain.len(),
{
    if chain.len() == 0 {
        Seq::empty()
    } else {
        let own = match attribute(nodes[chain[0]], "role"@) {
            Some(value) => words(value),
            None => Seq::empty(),
        };
        own + roles(nodes, chain.drop_first())
    }
}

/// The value of a node's first attribute with the local name `key`.
fn attribute_of(node: &XmlNode, key: &str) -> (value: Option<String>)
    ensures
        match value {
            Some(v) => attribute(node@, key@) == Some(v@),
            None => attribute(node@, key@) is None,
        },
{
    let ghost views = node.attributes@.map_values(|a: (String, String)| (a.0@, a.1@));
    assert(views.skip(0) =~= views);
    assert(NodeView { attributes: views.skip(0), ..node@ } == node@);
    let mut k: usize = 0;
    while k < node.attributes.len()
        invariant
            views == node.attributes@.map_values(|a: (String, String)| (a.0@, a.1@)),
            k <= views.len(),
            attribute(node@, key@) == attribute(NodeView { attributes: views.skip(k as int), ..node@ }, key@),
        decreases views.len() - k,
    {
        let ghost rest = NodeView { attributes: views.skip(k as int), ..node@ };
        proof {
            assert(rest.attributes[0] == (node.attributes@[k as int].0@, node.attributes@[k as int].1@));
            assert(rest.attributes.drop_first() =~= views.skip(k + 1));
        }
        if same_text(node.attributes[k].0.as_str(), key) {
            return Some(node.attributes[k].1.clone());
        }
        k += 1;
    }
    proof {
        assert(views.skip(k as int) =~= Seq::<(Seq<char>, Seq<char>)>::empty());
    }
    None
}

/// The places of a chain of nodes.
pub open spec fn places(chain: Seq<usize>) -> Seq<int> {
    chain.map_values(|i: usize| i as int)
}

/// The node at `index` and its ancestors, the root last.
fn ancestor_chain(nodes: &Vec<XmlNode>, index: usize) -> (chain: Vec<usize>)
    requires
        index < nodes@.len(),
    ensures
        places(chain@) == ancestors(node_views(nodes@), index as int),
        forall|i: int| 0 <= i < chain@.len() ==> #[trigger] chain@[i] < nodes@.len(),
{
    let ghost views = node_views(nodes@);
    let mut chain: Vec<usize> = Vec::new();
    let mut current = index;
    loop
        invariant
            views == node_views(nodes@),
            current < nodes@.len(),
            places(chain@) + ancestors(views, current as int) == ancestors(views, index as int),
            forall|i: int| 0 <= i < chain@.len() ==> #[trigger] chain@[i] < nodes@.len(),
        decreases current,
    {
        let ghost before = chain@;
        chain.push(current);
        proof {
            assert(places(chain@) =~= places(before).push(current as int));
            assert(views[current as int].parent == nodes@[current as int].parent);
        }
        match nodes[current].parent {
            Some(p) => {
                if p < current {
                    proof {
                        assert(ancestors(views, current as int) == seq![current as int] + ancestors(views, p as int));
                        assert(places(chain@) + ancestors(views, p as int) =~= places(before) + ancestors(views, current as int));
                    }
                    current = p;
                } else {
                    proof {
                        assert(places(chain@) =~= places(before) + ancestors(views, current as int));
                    }
                    return chain;
                }
            },
            None => {
                proof {
                    assert(places(chain@) =~= places(before) + ancestors(views, current as int));
                }
                return chain;
            },
        }
    }
}

/// The first value of the attribute `key` along a chain of nodes.
fn inherited_value(nodes: &Vec<XmlNode>, chain: &Vec<usize>, key: &str) -> (value: Option<String>)
    requires
        forall|i: int| 0 <= i < chain@.len() ==> #[trigger] chain@[i] < nodes@.len(),
    ensures
        match value {
            Some(v) => inherited(node_views(nodes@), places(chain@), key@) == Some(v@),
            None => inherited(node_views(nodes@), places(chain@), key@) is None,
        },
{
    let ghost views = node_views(nodes@);
    let mut k: usize = 0;
    assert(places(chain@).skip(0) =~= places(chain@));
    while k < chain.len()
        invariant
            views == node_views(nodes@),
            k <= chain@.len(),
            forall|i: int| 0 <= i < chain@.len() ==> #[trigger] chain@[i] < nodes@.len(),
            inherited(views, places(chain@), key@) == inherited(views, places(chain@).skip(k as int), key@),
        decreases chain@.len() - k,
    {
        proof {
            assert(places(chain@).skip(k as int)[0] == chain@[k as int] as int);
            assert(places(chain@).skip(k as int).drop_first() =~= places(chain@).skip(k + 1));
            assert(views[chain@[k as int] as int] == nodes@[chain@[k as int] as int]@);
        }
        match attribute_of(&nodes[chain[k]], key) {
            Some(value) => {
                return Some(value);
            },
            None => {},
        }
        k += 1;
    }
    assert(places(chain@).skip(k as int) =~= Seq::<int>::empty());
    None
}

/// The roles along a chain of nodes.
fn roles_along(nodes: &Vec<XmlNode>, chain: &Vec<usize>) -> (found: Vec<Vec<char>>)
    requires
        forall|i: int| 0 <= i < chain@.len() ==> #[trigger] chain@[i] < nodes@.len(),
    ensures
        found@.map_values(|w: Vec<char>| w@) == roles(node_views(nodes@), places(chain@)),
{
    let ghost views = node_views(nodes@);
    let mut found: Vec<Vec<char>> = Vec::new();
    let mut k: usize = chain.len();
    assert(places(chain@).skip(chain@.len() as int) =~= Seq::<int>::empty());
    while k > 0
        invariant
            views == node_views(nodes@),
            k <= chain@.len(),
            forall|i: int| 0 <= i < chain@.len() ==> #[trigger] chain@[i] < nodes@.len(),
            found@.map_values(|w: Vec<char>| w@) == roles(views, places(chain@).skip(k as int)),
        decreases k,
    {
        k -= 1;
        proof {
            assert(places(chain@).skip(k as int)[0] == chain@[k as int] as int);
            assert(places(chain@).skip(k as int).drop_first() =~= places(chain@).skip(k + 1));
            assert(views[chain@[k as int] as int] == nodes@[chain@[k as int] as int]@);
            reveal_strlit("role");
        }
        let own = match attribute_of(&nodes[chain[k]], "role") {
            Some(value) => split_words(&chars_of(value.as_str())),
            None => Vec::new(),
        };
        let ghost own_views = own@.map_values(|w: Vec<char>| w@);
        let ghost later = found@.map_values(|w: Vec<char>| w@);
        let mut joined = own;
        let mut rest = found;
        joined.append(&mut rest);
        found = joined;
        proof {
            assert(found@.map_values(|w: Vec<char>| w@) =~= own_views + later);
        }
    }
    assert(places(chain@).skip(0) =~= places(chain@));
    found
}

/// Whether a word is among the roles.
fn has_role(found: &Vec<Vec<char>>, role: &str) -> (present: bool)
    ensures
        present == found@.map_values(|w: Vec<char>| w@).contains(role@),
{
    let ghost views = found@.map_values(|w: Vec<char>| w@);
    let target = chars_of(role);
    let mut k: usize = 0;
    while k < found.len()
        invariant
            views == found@.map_values(|w: Vec<char>| w@),
            target@ == role@,
            k <= found@.len(),
            forall|i: int| 0 <= i < k ==> views[i] != role@,
        decreases found@.len() - k,
    {
        if same_chars(&found[k], &target) {
            assert(views[k as int] == role@);
            return true;
        }
        k += 1;
    }
    false
}

/// Whether two runs of characters are the same.
fn same_chars(a: &Vec<char>, b: &Vec<char>) -> (same: bool)
    ensures
        same == (a@ == b@),
{
    if a.len() != b.len() {
        return false;
    }
    let mut k: usize = 0;
    while k < a.len()
        invariant
            a@.len() == b@.len(),
            k <= a@.len(),
            forall|i: int| 0 <= i < k ==> a@[i] == b@[i],
        decreases a@.len() - k,
    {
        if a[k] != b[k] {
            return false;
        }
        k += 1;
    }
    assert(a@ =~= b@);
    true
}

/// A timed word: the clock values of its start and (when it has a readable one) its end, and
/// its text.
pub struct TimedWord {
    pub begin: String,
    pub end: Option<String>,
    pub text: String,
}

/// The words of one voice: its singer number (`None` for a group) and its words in order.
pub struct VoiceLane {
    pub singer: Option<usize>,
    pub words: Vec<TimedWord>,
}

/// A named section of the song: its label and the clock values of its start and end.
pub struct SectionMark {
    pub label: String,
    pub begin: String,
    pub end: String,
}

/// A timed word as plain values.
pub open spec fn word_view(word: TimedWord) -> (Seq<char>, Option<Seq<char>>, Seq<char>) {
    (word.begin@, match word.end {
        Some(e) => Some(e@),
        None => None,
    }, word.text@)
}

/// A voice as plain values.
pub open spec fn lane_view(lane: VoiceLane) -> (Option<usize>, Seq<(Seq<char>, Option<Seq<char>>, Seq<char>)>) {
    (lane.singer, lane.words@.map_values(|w: TimedWord| word_view(w)))
}

/// A section as plain values.
pub open spec fn section_view(section: SectionMark) -> (Seq<char>, Seq<char>, Seq<char>) {
    (section.label@, section.begin@, section.end@)
}

/// What reading the document has gathered so far: the agents (id, and whether a group), the
/// voices by key (lead singer first, then agent, then backing) with their words, and the
/// sections.
pub struct Reading {
    pub agents: Seq<(Seq<char>, bool)>,
    pub keys: Seq<(bool, usize, bool)>,
    pub lanes: Seq<(Option<usize>, Seq<(Seq<char>, Option<Seq<char>>, Seq<char>)>)>,
    pub sections: Seq<(Seq<char>, Seq<char>, Seq<char>)>,
}

/// A voice's words with a space after the last one, unless it already ends in whitespace.
pub open spec fn separated(words: Seq<(Seq<char>, Option<Seq<char>>, Seq<char>)>) -> Seq<
    (Seq<char>, Option<Seq<char>>, Seq<char>),
> {
    if words.len() > 0 && !(words.last().2.len() > 0 && whitespace(words.last().2.last())) {
        words.update(words.len() - 1, (words.last().0, words.last().1, words.last().2.push(' ')))
    } else {
        words
    }
}

/// The place of the first agent with the id.
pub open spec fn agent_index(agents: Seq<(Seq<char>, bool)>, id: Seq<char>) -> Option<int>
    decreases agents.len(),
{
    if agents.len() == 0 {
        None
    } else {
        match agent_index(agents.drop_last(), id) {
            Some(i) => Some(i),
            None => if agents.last().0 == id {
                Some(agents.len() - 1)
            } else {
                None
            },
        }
    }
}

/// How many of the agents are not groups.
pub open spec fn solo_count(agents: Seq<(Seq<char>, bool)>) -> nat
    decreases agents.len(),
{
    if agents.len() == 0 {
        0
    } else {
        solo_count(agents.drop_last()) + if agents.last().1 {
            0nat
        } else {
            1nat
        }
    }
}

/// The place of the first voice with the key.
pub open spec fn key_index(keys: Seq<(bool, usize, bool)>, key: (bool, usize, bool)) -> Option<int>
    decreases keys.len(),
{
    if keys.len() == 0 {
        None
    } else {
        match key_index(keys.drop_last(), key) {
            Some(i) => Some(i),
            None => if keys.last() == key {
                Some(keys.len() - 1)
            } else {
                None
            },
        }
    }
}

/// A clock value if it is readable.
pub open spec fn readable(value: Option<Seq<char>>) -> Option<Seq<char>> {
    match value {
        Some(v) => if clock_text(v) {
            Some(v)
        } else {
            None
        },
        None => None,
    }
}

/// Reading the text node at `w` inside a paragraph: translations and romanizations are
/// skipped; the word goes to the voice of its agent (inherited, else the first agent, else
/// none), its role as a group or a singer, and whether it is a backing vocal; blank text
/// separates the voice's last word, other text is added with its inherited start when that is
/// readable.
pub open spec fn word_step(nodes: Seq<NodeView>, st: Reading, w: int) -> Reading {
    let chain = ancestors(nodes, w);
    let found = roles(nodes, chain);
    if found.contains("x-translation"@) || found.contains("x-roman"@) {
        st
    } else {
        let agent = match inherited(nodes, chain, "agent"@) {
            Some(a) => a,
            None => if st.agents.len() > 0 {
                st.agents[0].0
            } else {
                Seq::empty()
            },
        };
        let known = agent_index(st.agents, agent);
        let agents = if known is Some {
            st.agents
        } else {
            st.agents.push((agent, false))
        };
        let index = if known is Some {
            known->0
        } else {
            st.agents.len() as int
        };
        let group = agents[index].1;
        let key = (!group, index as usize, found.contains("x-bg"@));
        let slot = key_index(st.keys, key);
        let keys = if slot is Some {
            st.keys
        } else {
            st.keys.push(key)
        };
        let lanes = if slot is Some {
            st.lanes
        } else {
            st.lanes.push(
                (if !group {
                    Some(solo_count(agents.take(index)) as usize)
                } else {
                    None
                }, Seq::empty()),
            )
        };
        let at = if slot is Some {
            slot->0
        } else {
            st.keys.len() as int
        };
        let value = match nodes[w].text {
            Some(t) => t,
            None => Seq::empty(),
        };
        let words = if blank(value) {
            separated(lanes[at].1)
        } else {
            match readable(inherited(nodes, chain, "begin"@)) {
                Some(begin) => lanes[at].1.push((begin, readable(inherited(nodes, chain, "end"@)), value)),
                None => lanes[at].1,
            }
        };
        Reading { agents, keys, lanes: lanes.update(at, (lanes[at].0, words)), sections: st.sections }
    }
}

/// Whether node `j` lies inside node `p` (or is it).
pub open spec fn inside(nodes: Seq<NodeView>, j: int, p: int) -> bool {
    ancestors(nodes, j).contains(p)
}

/// Reading the text nodes inside paragraph `p` among the nodes before `upto`.
pub open spec fn paragraph_words(nodes: Seq<NodeView>, st: Reading, p: int, upto: int) -> Reading
    decreases upto - p,
{
    if upto <= p {
        st
    } else {
        let earlier = paragraph_words(nodes, st, p, upto - 1);
        let j = upto - 1;
        if nodes[j].text_node && inside(nodes, j, p) {
            word_step(nodes, earlier, j)
        } else {
            earlier
        }
    }
}

/// Reading paragraph `p`: its words, then a separating space after every voice's last word.
pub open spec fn paragraph_step(nodes: Seq<NodeView>, st: Reading, p: int) -> Reading {
    let read = paragraph_words(nodes, st, p, nodes.len() as int);
    Reading {
        lanes: read.lanes.map_values(
            |lane: (Option<usize>, Seq<(Seq<char>, Option<Seq<char>>, Seq<char>)>)| (lane.0, separated(lane.1)),
        ),
        ..read
    }
}

/// Reading a `div`: a section when it names a song part and has readable start and end.
pub open spec fn division_step(node: NodeView, st: Reading) -> Reading {
    let name = match attribute(node, "songPart"@) {
        Some(n) => Some(n),
        None => attribute(node, "song-part"@),
    };
    let begin = readable(attribute(node, "begin"@));
    let end = readable(attribute(node, "end"@));
    if name is Some && begin is Some && end is Some {
        Reading { sections: st.sections.push((label_text(name->0), begin->0, end->0)), ..st }
    } else {
        st
    }
}

/// Reading the element at `i`.
pub open spec fn element_step(nodes: Seq<NodeView>, st: Reading, i: int) -> Reading {
    let node = nodes[i];
    if !node.element {
        st
    } else {
        let after_div = if node.name == "div"@ {
            division_step(node, st)
        } else {
            st
        };
        if node.name == "p"@ {
            paragraph_step(nodes, after_div, i)
        } else {
            after_div
        }
    }
}

/// The agents declared in the document before `upto`: each `agent` node with an id, and
/// whether its type is `group`.
pub open spec fn declared_agents(nodes: Seq<NodeView>, upto: int) -> Seq<(Seq<char>, bool)>
    decreases upto,
{
    if upto <= 0 {
        Seq::empty()
    } else {
        let earlier = declared_agents(nodes, upto - 1);
        let node = nodes[upto - 1];
        if node.name == "agent"@ && attribute(node, "id"@) is Some {
            earlier.push((attribute(node, "id"@)->0, attribute(node, "type"@) == Some("group"@)))
        } else {
            earlier
        }
    }
}

/// Reading the elements before `upto` in document order.
pub open spec fn read_upto(nodes: Seq<NodeView>, upto: int) -> Reading
    decreases upto,
{
    if upto <= 0 {
        Reading {
            agents: declared_agents(nodes, nodes.len() as int),
            keys: Seq::empty(),
            lanes: Seq::empty(),
            sections: Seq::empty(),
        }
    } else {
        element_step(nodes, read_upto(nodes, upto - 1), upto - 1)
    }
}

/// The voices with words for keys `(lead, index, backing)` with `index` below `count`, in key
/// order.
pub open spec fn voices_upto(st: Reading, lead: bool, count: int) -> Seq<
    (Option<usize>, Seq<(Seq<char>, Option<Seq<char>>, Seq<char>)>),
>
    decreases count,
{
    if count <= 0 {
        Seq::empty()
    } else {
        let earlier = voices_upto(st, lead, count - 1);
        let plain = key_index(st.keys, (lead, (count - 1) as usize, false));
        let backing = key_index(st.keys, (lead, (count - 1) as usize, true));
        let with_plain = match plain {
            Some(k) => if st.lanes[k].1.len() > 0 {
                earlier.push(st.lanes[k])
            } else {
                earlier
            },
            None => earlier,
        };
        match backing {
            Some(k) => if st.lanes[k].1.len() > 0 {
                with_plain.push(st.lanes[k])
            } else {
                with_plain
            },
            None => with_plain,
        }
    }
}

/// The voices of a reading in key order (groups first, then singers; by agent; plain before
/// backing), those without words left out.
pub open spec fn ordered_voices(st: Reading) -> Seq<(Option<usize>, Seq<(Seq<char>, Option<Seq<char>>, Seq<char>)>)> {
    voices_upto(st, false, st.agents.len() as int) + voices_upto(st, true, st.agents.len() as int)
}

/// Timed lyrics read from a TTML document: the voices with their words, in key order, and the
/// named sections.
pub struct TtmlLyrics {
    pub voices: Vec<VoiceLane>,
    pub sections: Vec<SectionMark>,
}

/// What reading has gathered so far.
struct ReadingState {
    agents: Vec<(String, bool)>,
    keys: Vec<(bool, usize, bool)>,
    lanes: Vec<VoiceLane>,
    sections: Vec<SectionMark>,
}

/// The agents as plain values.
pub open spec fn agent_views(agents: Seq<(String, bool)>) -> Seq<(Seq<char>, bool)> {
    agents.map_values(|a: (String, bool)| (a.0@, a.1))
}

/// The views of voices.
pub open spec fn lane_views(lanes: Seq<VoiceLane>) -> Seq<(Option<usize>, Seq<(Seq<char>, Option<Seq<char>>, Seq<char>)>)> {
    lanes.map_values(|lane: VoiceLane| lane_view(lane))
}

/// The views of sections.
pub open spec fn section_views(sections: Seq<SectionMark>) -> Seq<(Seq<char>, Seq<char>, Seq<char>)> {
    sections.map_values(|section: SectionMark| section_view(section))
}

/// What a reading state holds, as plain values.
spec fn state_view(st: ReadingState) -> Reading {
    Reading {
        agents: agent_views(st.agents@),
        keys: st.keys@,
        lanes: lane_views(st.lanes@),
        sections: section_views(st.sections@),
    }
}

/// The first agent with an id is found where it first occurs.
proof fn lemma_agent_index(agents: Seq<(Seq<char>, bool)>, id: Seq<char>, j: int)
    requires
        0 <= j <= agents.len(),
        forall|k: int| 0 <= k < j ==> (#[trigger] agents[k]).0 != id,
        j < agents.len() ==> agents[j].0 == id,
    ensures
        agent_index(agents, id) == (if j < agents.len() {
            Some(j)
        } else {
            None::<int>
        }),
    decreases agents.len(),
{
    if agents.len() > 0 {
        if j < agents.len() - 1 {
            lemma_agent_index(agents.drop_last(), id, j);
        } else {
            assert forall|k: int| 0 <= k < agents.drop_last().len() implies (#[trigger] agents.drop_last()[k]).0
                != id by {
                assert(agents.drop_last()[k] == agents[k]);
            }
            lemma_agent_index(agents.drop_last(), id, agents.len() - 1);
        }
    }
}

/// The first voice with a key is found where it first occurs.
proof fn lemma_key_index(keys: Seq<(bool, usize, bool)>, key: (bool, usize, bool), j: int)
    requires
        0 <= j <= keys.len(),
        forall|k: int| 0 <= k < j ==> #[trigger] keys[k] != key,
        j < keys.len() ==> keys[j] == key,
    ensures
        key_index(keys, key) == (if j < keys.len() {
            Some(j)
        } else {
            None::<int>
        }),
    decreases keys.len(),
{
    if keys.len() > 0 {
        if j < keys.len() - 1 {
            lemma_key_index(keys.drop_last(), key, j);
        } else {
            assert forall|k: int| 0 <= k < keys.drop_last().len() implies #[trigger] keys.drop_last()[k] != key by {
                assert(keys.drop_last()[k] == keys[k]);
            }
            lemma_key_index(keys.drop_last(), key, keys.len() - 1);
        }
    }
}

/// The place of the first agent with the id.
fn find_agent(agents: &Vec<(String, bool)>, id: &String) -> (found: Option<usize>)
    ensures
        match found {
            Some(i) => i < agents@.len() && agent_index(agent_views(agents@), id@) == Some(i as int),
            None => agent_index(agent_views(agents@), id@) is None,
        },
{
    let ghost views = agent_views(agents@);
    let mut k: usize = 0;
    while k < agents.len()
        invariant
            views == agent_views(agents@),
            k <= agents@.len(),
            forall|i: int| 0 <= i < k ==> (#[trigger] views[i]).0 != id@,
        decreases agents@.len() - k,
    {
        if agents[k].0 == *id {
            proof {
                lemma_agent_index(views, id@, k as int);
            }
            return Some(k);
        }
        k += 1;
    }
    proof {
        lemma_agent_index(views, id@, k as int);
    }
    None
}

/// The place of the first voice with the key.
fn find_key(keys: &Vec<(bool, usize, bool)>, key: (bool, usize, bool)) -> (found: Option<usize>)
    ensures
        match found {
            Some(i) => i < keys@.len() && key_index(keys@, key) == Some(i as int),
            None => key_index(keys@, key) is None,
        },
{
    let mut k: usize = 0;
    while k < keys.len()
        invariant
            k <= keys@.len(),
            forall|i: int| 0 <= i < k ==> #[trigger] keys@[i] != key,
        decreases keys@.len() - k,
    {
        let candidate = keys[k];
        if candidate.0 == key.0 && candidate.1 == key.1 && candidate.2 == key.2 {
            proof {
                lemma_key_index(keys@, key, k as int);
            }
            return Some(k);
        }
        k += 1;
    }
    proof {
        lemma_key_index(keys@, key, k as int);
    }
    None
}

/// How many of the first `count` agents are not groups.
fn solos_before(agents: &Vec<(String, bool)>, count: usize) -> (solos: usize)
    requires
        count <= agents@.len(),
    ensures
        solos == solo_count(agent_views(agents@).take(count as int)),
{
    let ghost views = agent_views(agents@);
    let mut solos: usize = 0;
    let mut k: usize = 0;
    while k < count
        invariant
            views == agent_views(agents@),
            count <= agents@.len(),
            k <= count,
            solos <= k,
            solos == solo_count(views.take(k as int)),
        decreases count - k,
    {
        proof {
            assert(views.take(k + 1).drop_last() =~= views.take(k as int));
            assert(views.take(k + 1).last() == views[k as int]);
        }
        if !agents[k].1 {
            solos += 1;
        }
        k += 1;
    }
    solos
}

/// Adds a space after a voice's last word unless it already ends in whitespace.
fn separate_words(words: &mut Vec<TimedWord>)
    ensures
        final(words)@.map_values(|w: TimedWord| word_view(w)) == separated(
            old(words)@.map_values(|w: TimedWord| word_view(w)),
        ),
{
    let ghost before = words@.map_values(|w: TimedWord| word_view(w));
    if words.len() == 0 {
        return;
    }
    let last = words.len() - 1;
    let ghost exec_before = words@;
    let mut word = words.remove(last);
    let ghost original = word;
    let text = chars_of(word.text.as_str());
    let spaced = text.len() > 0 && crate::chars::is_whitespace(text[text.len() - 1]);
    proof {
        reveal_strlit(" ");
    }
    if !spaced {
        word.text.append(" ");
    }
    words.push(word);
    proof {
        assert(original == exec_before[last as int]);
        assert(before.last() == word_view(original));
        assert(words@ =~= exec_before.update(last as int, word));
        if !spaced {
            assert(word.text@ =~= original.text@.push(' '));
            assert(word_view(word) == (before.last().0, before.last().1, before.last().2.push(' ')));
            assert(words@.map_values(|w: TimedWord| word_view(w)) =~= before.update(
                before.len() - 1,
                (before.last().0, before.last().1, before.last().2.push(' ')),
            ));
        } else {
            assert(word == original);
            assert(words@.map_values(|w: TimedWord| word_view(w)) =~= before);
        }
    }
}

/// The agents the document declares.
fn declared(nodes: &Vec<XmlNode>) -> (agents: Vec<(String, bool)>)
    ensures
        agent_views(agents@) == declared_agents(node_views(nodes@), nodes@.len() as int),
{
    let ghost views = node_views(nodes@);
    let mut agents: Vec<(String, bool)> = Vec::new();
    let mut k: usize = 0;
    proof {
        reveal_strlit("agent");
        reveal_strlit("id");
        reveal_strlit("type");
        reveal_strlit("group");
    }
    while k < nodes.len()
        invariant
            views == node_views(nodes@),
            k <= nodes@.len(),
            agent_views(agents@) == declared_agents(views, k as int),
        decreases nodes@.len() - k,
    {
        let node = &nodes[k];
        assert(views[k as int] == node@);
        if same_text(node.name.as_str(), "agent") {
            match attribute_of(node, "id") {
                Some(id) => {
                    let group = match attribute_of(node, "type") {
                        Some(kind) => same_text(kind.as_str(), "group"),
                        None => false,
                    };
                    let ghost before = agents@;
                    agents.push((id, group));
                    proof {
                        assert(agent_views(agents@) =~= agent_views(before).push((id@, group)));
                    }
                },
                None => {},
            }
        }
        k += 1;
    }
    agents
}

/// Reads the text node at `w` inside a paragraph.
fn read_word(nodes: &Vec<XmlNode>, st: &mut ReadingState, w: usize)
    requires
        w < nodes@.len(),
        old(st).keys@.len() == old(st).lanes@.len(),
        forall|i: int| 0 <= i < old(st).keys@.len() ==> (#[trigger] old(st).keys@[i]).1 < old(st).agents@.len(),
    ensures
        state_view(*final(st)) == word_step(node_views(nodes@), state_view(*old(st)), w as int),
        final(st).keys@.len() == final(st).lanes@.len(),
        forall|i: int| 0 <= i < final(st).keys@.len() ==> (#[trigger] final(st).keys@[i]).1 < final(st).agents@.len(),
        final(st).sections@ == old(st).sections@,
{
    let ghost views = node_views(nodes@);
    let ghost before = state_view(*st);
    let chain = ancestor_chain(nodes, w);
    let found = roles_along(nodes, &chain);
    proof {
        reveal_strlit("x-translation");
        reveal_strlit("x-roman");
        reveal_strlit("x-bg");
        reveal_strlit("agent");
        reveal_strlit("begin");
        reveal_strlit("end");
    }
    if has_role(&found, "x-translation") || has_role(&found, "x-roman") {
        return;
    }
    let agent: String = match inherited_value(nodes, &chain, "agent") {
        Some(a) => a,
        None => if st.agents.len() > 0 {
            st.agents[0].0.clone()
        } else {
            String::new()
        },
    };
    proof {
        if st.agents@.len() > 0 {
            assert(agent_views(st.agents@)[0] == (st.agents@[0].0@, st.agents@[0].1));
        }
    }
    let known = find_agent(&st.agents, &agent);
    let index = match known {
        Some(i) => i,
        None => {
            let ghost agents_before = st.agents@;
            st.agents.push((agent, false));
            proof {
                assert(agent_views(st.agents@) =~= agent_views(agents_before).push((agent@, false)));
            }
            st.agents.len() - 1
        },
    };
    let group = st.agents[index].1;
    proof {
        assert(agent_views(st.agents@)[index as int] == (st.agents@[index as int].0@, group));
    }
    let backing = has_role(&found, "x-bg");
    let key = (!group, index, backing);
    let at = match find_key(&st.keys, key) {
        Some(k) => k,
        None => {
            let singer = if !group {
                Some(solos_before(&st.agents, index))
            } else {
                None
            };
            let ghost lanes_before = st.lanes@;
            let fresh = VoiceLane { singer, words: Vec::new() };
            proof {
                assert(fresh.words@.map_values(|w: TimedWord| word_view(w)) =~= Seq::<(Seq<char>, Option<Seq<char>>, Seq<char>)>::empty());
            }
            st.keys.push(key);
            st.lanes.push(fresh);
            proof {
                assert(lane_views(st.lanes@) =~= lane_views(lanes_before).push((singer, Seq::empty())));
            }
            st.keys.len() - 1
        },
    };
    let value: String = match &nodes[w].text {
        Some(t) => t.clone(),
        None => String::new(),
    };
    proof {
        assert(views[w as int] == nodes@[w as int]@);
    }
    let ghost lanes_mid = st.lanes@;
    let mut lane = st.lanes.remove(at);
    let ghost lane_before = lane_view(lane);
    if is_blank(value.as_str()) {
        separate_words(&mut lane.words);
    } else {
        match inherited_value(nodes, &chain, "begin") {
            Some(begin) => {
                if clock_value(begin.as_str()) {
                    let end = match inherited_value(nodes, &chain, "end") {
                        Some(e) => if clock_value(e.as_str()) {
                            Some(e)
                        } else {
                            None
                        },
                        None => None,
                    };
                    let ghost words_before = lane.words@;
                    let ghost end_view = match &end {
                        Some(e) => Some(e@),
                        None => None::<Seq<char>>,
                    };
                    lane.words.push(TimedWord { begin, end, text: value });
                    proof {
                        assert(lane.words@.map_values(|x: TimedWord| word_view(x)) =~= words_before.map_values(
                            |x: TimedWord| word_view(x),
                        ).push((begin@, end_view, value@)));
                    }
                }
            },
            None => {},
        }
    }
    let ghost lane_after = lane_view(lane);
    st.lanes.insert(at, lane);
    proof {
        assert(st.lanes@ =~= lanes_mid.update(at as int, lane));
        assert(lane_views(st.lanes@) =~= lane_views(lanes_mid).update(at as int, lane_after));
        assert(lane_before == lane_views(lanes_mid)[at as int]);
    }
}

/// Whether the chain of nodes passes through `p`.
fn chain_holds(chain: &Vec<usize>, p: usize) -> (holds: bool)
    ensures
        holds == places(chain@).contains(p as int),
{
    let mut k: usize = 0;
    while k < chain.len()
        invariant
            k <= chain@.len(),
            forall|i: int| 0 <= i < k ==> chain@[i] != p,
        decreases chain@.len() - k,
    {
        if chain[k] == p {
            assert(places(chain@)[k as int] == p as int);
            return true;
        }
        k += 1;
    }
    proof {
        if places(chain@).contains(p as int) {
            let i = choose|i: int| 0 <= i < places(chain@).len() && places(chain@)[i] == p as int;
            assert(chain@[i] == p);
        }
    }
    false
}

/// The separated form of every voice.
pub open spec fn all_separated(lanes: Seq<(Option<usize>, Seq<(Seq<char>, Option<Seq<char>>, Seq<char>)>)>) -> Seq<
    (Option<usize>, Seq<(Seq<char>, Option<Seq<char>>, Seq<char>)>),
> {
    lanes.map_values(
        |lane: (Option<usize>, Seq<(Seq<char>, Option<Seq<char>>, Seq<char>)>)| (lane.0, separated(lane.1)),
    )
}

/// Reads paragraph `p`.
fn read_paragraph(nodes: &Vec<XmlNode>, st: &mut ReadingState, p: usize)
    requires
        p < nodes@.len(),
        old(st).keys@.len() == old(st).lanes@.len(),
        forall|i: int| 0 <= i < old(st).keys@.len() ==> (#[trigger] old(st).keys@[i]).1 < old(st).agents@.len(),
    ensures
        state_view(*final(st)) == paragraph_step(node_views(nodes@), state_view(*old(st)), p as int),
        final(st).keys@.len() == final(st).lanes@.len(),
        forall|i: int| 0 <= i < final(st).keys@.len() ==> (#[trigger] final(st).keys@[i]).1 < final(st).agents@.len(),
{
    let ghost views = node_views(nodes@);
    let ghost start = state_view(*st);
    let mut j = p;
    while j < nodes.len()
        invariant
            views == node_views(nodes@),
            p <= j <= nodes@.len(),
            state_view(*st) == paragraph_words(views, start, p as int, j as int),
            st.keys@.len() == st.lanes@.len(),
            forall|i: int| 0 <= i < st.keys@.len() ==> (#[trigger] st.keys@[i]).1 < st.agents@.len(),
        decreases nodes@.len() - j,
    {
        assert(views[j as int] == nodes@[j as int]@);
        if nodes[j].text_node {
            let chain = ancestor_chain(nodes, j);
            if chain_holds(&chain, p) {
                read_word(nodes, st, j);
            }
        }
        j += 1;
    }
    let ghost read = state_view(*st);
    let mut k: usize = 0;
    while k < st.lanes.len()
        invariant
            k <= st.lanes@.len(),
            st.keys@.len() == st.lanes@.len(),
            forall|i: int| 0 <= i < st.keys@.len() ==> (#[trigger] st.keys@[i]).1 < st.agents@.len(),
            agent_views(st.agents@) == read.agents,
            st.keys@ == read.keys,
            section_views(st.sections@) == read.sections,
            lane_views(st.lanes@).len() == read.lanes.len(),
            forall|i: int| 0 <= i < k ==> #[trigger] lane_views(st.lanes@)[i] == all_separated(read.lanes)[i],
            forall|i: int| k <= i < read.lanes.len() ==> #[trigger] lane_views(st.lanes@)[i] == read.lanes[i],
        decreases st.lanes@.len() - k,
    {
        let ghost lanes_before = st.lanes@;
        let mut lane = st.lanes.remove(k);
        let ghost lane_old = lane;
        proof {
            assert(lane_old == lanes_before[k as int]);
            assert(lane_view(lane_old) == lane_views(lanes_before)[k as int]);
        }
        separate_words(&mut lane.words);
        proof {
            assert(lane_view(lane) == (lane_old.singer, separated(lane_view(lane_old).1)));
        }
        st.lanes.insert(k, lane);
        proof {
            assert(st.lanes@ =~= lanes_before.update(k as int, lane));
            assert forall|i: int| 0 <= i < lanes_before.len() implies #[trigger] lane_views(st.lanes@)[i] == (if i
                == k {
                lane_view(lane)
            } else {
                lane_views(lanes_before)[i]
            }) by {}
            assert(lane_view(lane) == all_separated(read.lanes)[k as int]);
        }
        k += 1;
    }
    proof {
        assert(lane_views(st.lanes@) =~= all_separated(read.lanes));
    }
}

/// Reads a `div`.
fn read_division(node: &XmlNode, st: &mut ReadingState)
    ensures
        state_view(*final(st)) == division_step(node@, state_view(*old(st))),
        final(st).agents@ == old(st).agents@,
        final(st).keys@ == old(st).keys@,
        final(st).lanes@ == old(st).lanes@,
{
    proof {
        reveal_strlit("songPart");
        reveal_strlit("song-part");
        reveal_strlit("begin");
        reveal_strlit("end");
    }
    let name = match attribute_of(node, "songPart") {
        Some(n) => Some(n),
        None => attribute_of(node, "song-part"),
    };
    let begin = match attribute_of(node, "begin") {
        Some(b) => if clock_value(b.as_str()) {
            Some(b)
        } else {
            None
        },
        None => None,
    };
    let end = match attribute_of(node, "end") {
        Some(e) => if clock_value(e.as_str()) {
            Some(e)
        } else {
            None
        },
        None => None,
    };
    match (name, begin, end) {
        (Some(name), Some(begin), Some(end)) => {
            let ghost before = st.sections@;
            let label = section_label(name.as_str());
            st.sections.push(SectionMark { label, begin, end });
            proof {
                assert(section_views(st.sections@) =~= section_views(before).push((label@, begin@, end@)));
            }
        },
        _ => {},
    }
}

/// A copy of a voice.
fn copy_lane(lane: &VoiceLane) -> (copy: VoiceLane)
    ensures
        lane_view(copy) == lane_view(*lane),
{
    let mut words: Vec<TimedWord> = Vec::new();
    let mut k: usize = 0;
    while k < lane.words.len()
        invariant
            k <= lane.words@.len(),
            words@.map_values(|w: TimedWord| word_view(w)) == lane.words@.take(k as int).map_values(
                |w: TimedWord| word_view(w),
            ),
        decreases lane.words@.len() - k,
    {
        let word = &lane.words[k];
        let end = match &word.end {
            Some(e) => Some(e.clone()),
            None => None,
        };
        let ghost before = words@;
        let copy = TimedWord { begin: word.begin.clone(), end, text: word.text.clone() };
        assert(word_view(copy) == word_view(*word));
        words.push(copy);
        k += 1;
        proof {
            assert(words@.map_values(|w: TimedWord| word_view(w)) =~= before.map_values(|w: TimedWord| word_view(w)).push(
                word_view(*word),
            ));
            assert(lane.words@.take(k as int).map_values(|w: TimedWord| word_view(w)) =~= lane.words@.take(
                k - 1,
            ).map_values(|w: TimedWord| word_view(w)).push(word_view(lane.words@[k - 1])));
        }
    }
    assert(lane.words@.take(k as int) =~= lane.words@);
    VoiceLane { singer: lane.singer, words }
}

/// Adds the voice with the key to `out` when it has words.
fn add_voice(st: &ReadingState, key: (bool, usize, bool), out: &mut Vec<VoiceLane>)
    requires
        st.keys@.len() == st.lanes@.len(),
    ensures
        lane_views(final(out)@) == (match key_index(st.keys@, key) {
            Some(k) => if lane_views(st.lanes@)[k].1.len() > 0 {
                lane_views(old(out)@).push(lane_views(st.lanes@)[k])
            } else {
                lane_views(old(out)@)
            },
            None => lane_views(old(out)@),
        }),
{
    match find_key(&st.keys, key) {
        Some(k) => {
            assert(lane_views(st.lanes@)[k as int] == lane_view(st.lanes@[k as int]));
            if st.lanes[k].words.len() > 0 {
                let ghost before = out@;
                out.push(copy_lane(&st.lanes[k]));
                proof {
                    assert(lane_views(out@) =~= lane_views(before).push(lane_views(st.lanes@)[k as int]));
                }
            }
        },
        None => {},
    }
}

/// Adds the voices with words whose keys start with `lead`, in key order.
fn add_voices(st: &ReadingState, lead: bool, out: &mut Vec<VoiceLane>)
    requires
        st.keys@.len() == st.lanes@.len(),
    ensures
        lane_views(final(out)@) == lane_views(old(out)@) + voices_upto(state_view(*st), lead, st.agents@.len() as int),
{
    let ghost view = state_view(*st);
    let ghost start = lane_views(out@);
    let mut index: usize = 0;
    assert(start + voices_upto(view, lead, 0) =~= start);
    while index < st.agents.len()
        invariant
            view == state_view(*st),
            st.keys@.len() == st.lanes@.len(),
            index <= st.agents@.len(),
            lane_views(out@) == start + voices_upto(view, lead, index as int),
        decreases st.agents@.len() - index,
    {
        let ghost before = lane_views(out@);
        add_voice(st, (lead, index, false), out);
        add_voice(st, (lead, index, true), out);
        index += 1;
        proof {
            let earlier = voices_upto(view, lead, index - 1);
            assert(before == start + earlier);
            let plain = key_index(view.keys, (lead, (index - 1) as usize, false));
            let backing = key_index(view.keys, (lead, (index - 1) as usize, true));
            let with_plain = match plain {
                Some(k) => if view.lanes[k].1.len() > 0 {
                    earlier.push(view.lanes[k])
                } else {
                    earlier
                },
                None => earlier,
            };
            let after = match backing {
                Some(k) => if view.lanes[k].1.len() > 0 {
                    with_plain.push(view.lanes[k])
                } else {
                    with_plain
                },
                None => with_plain,
            };
            assert(voices_upto(view, lead, index as int) == after);
            match plain {
                Some(k) => {
                    assert(start + earlier.push(view.lanes[k]) =~= (start + earlier).push(view.lanes[k]));
                },
                None => {},
            }
            match backing {
                Some(k) => {
                    assert(start + with_plain.push(view.lanes[k]) =~= (start + with_plain).push(view.lanes[k]));
                },
                None => {},
            }
        }
    }
}

/// What reading the whole document gathers.
pub open spec fn ttml_reading(nodes: Seq<NodeView>) -> Reading {
    read_upto(nodes, nodes.len() as int)
}

/// The lyrics a TTML document's nodes hold: each element read in document order (a `div`
/// naming a song part becomes a section; a `p` adds its words to their voices), then the
/// voices with words in key order.  Clock values are kept as written; reading them as
/// seconds, and ordering the sections by start, is left to the caller.
pub fn ttml_from_nodes(nodes: &Vec<XmlNode>) -> (lyrics: TtmlLyrics)
    ensures
        lane_views(lyrics.voices@) == ordered_voices(ttml_reading(node_views(nodes@))),
        section_views(lyrics.sections@) == ttml_reading(node_views(nodes@)).sections,
{
    let ghost views = node_views(nodes@);
    let mut st = ReadingState { agents: declared(nodes), keys: Vec::new(), lanes: Vec::new(), sections: Vec::new() };
    proof {
        assert(lane_views(st.lanes@) =~= Seq::<(Option<usize>, Seq<(Seq<char>, Option<Seq<char>>, Seq<char>)>)>::empty());
        assert(section_views(st.sections@) =~= Seq::<(Seq<char>, Seq<char>, Seq<char>)>::empty());
        assert(state_view(st) == read_upto(views, 0));
    }
    let mut i: usize = 0;
    while i < nodes.len()
        invariant
            views == node_views(nodes@),
            i <= nodes@.len(),
            state_view(st) == read_upto(views, i as int),
            st.keys@.len() == st.lanes@.len(),
            forall|k: int| 0 <= k < st.keys@.len() ==> (#[trigger] st.keys@[k]).1 < st.agents@.len(),
        decreases nodes@.len() - i,
    {
        let node = &nodes[i];
        assert(views[i as int] == node@);
        if node.element {
            if same_text(node.name.as_str(), "div") {
                read_division(node, &mut st);
            }
            if same_text(node.name.as_str(), "p") {
                read_paragraph(nodes, &mut st, i);
            }
        }
        i += 1;
    }
    let mut voices: Vec<VoiceLane> = Vec::new();
    proof {
        assert(lane_views(voices@) =~= Seq::<(Option<usize>, Seq<(Seq<char>, Option<Seq<char>>, Seq<char>)>)>::empty());
    }
    add_voices(&st, false, &mut voices);
    add_voices(&st, true, &mut voices);
    proof {
        assert(Seq::<(Option<usize>, Seq<(Seq<char>, Option<Seq<char>>, Seq<char>)>)>::empty() + voices_upto(state_view(st), false, st.agents@.len() as int)
            =~= voices_upto(state_view(st), false, st.agents@.len() as int));
        assert(agent_views(st.agents@).len() == st.agents@.len());
    }
    TtmlLyrics { voices, sections: st.sections }
}

/// Reads the timed lyrics of a TTML document; none when it is not well-formed XML.
pub fn parse_ttml(source: &str) -> (lyrics: TtmlLyrics)
    ensures
        match xml_nodes(source@) {
            Some(nodes) => lane_views(lyrics.voices@) == ordered_voices(ttml_reading(nodes))
                && section_views(lyrics.sections@) == ttml_reading(nodes).sections,
            None => lyrics.voices@.len() == 0 && lyrics.sections@.len() == 0,
        },
{
    match parse_xml(source) {
        Some(nodes) => ttml_from_nodes(&nodes),
        None => TtmlLyrics { voices: Vec::new(), sections: Vec::new() },
    }
}


/// The nodes with the text of node `w` replaced by `text`.
pub open spec fn with_text(nodes: Seq<NodeView>, w: int, text: Option<Seq<char>>) -> Seq<NodeView> {
    nodes.update(w, NodeView { text, ..nodes[w] })
}

/// A node's attribute depends on its attributes alone.
proof fn lemma_attribute_same(a: NodeView, b: NodeView, key: Seq<char>)
    requires
        a.attributes == b.attributes,
    ensures
        attribute(a, key) == attribute(b, key),
    decreases a.attributes.len(),
{
    if a.attributes.len() > 0 && a.attributes[0].0 != key {
        lemma_attribute_same(
            NodeView { attributes: a.attributes.drop_first(), ..a },
            NodeView { attributes: b.attributes.drop_first(), ..b },
            key,
        );
    }
}

/// Changing a node's text changes no ancestor chain.
proof fn lemma_ancestors_same(nodes: Seq<NodeView>, w: int, text: Option<Seq<char>>, index: int)
    requires
        0 <= w < nodes.len(),
    ensures
        ancestors(with_text(nodes, w, text), index) == ancestors(nodes, index),
    decreases index,
{
    let other = with_text(nodes, w, text);
    if 0 <= index < nodes.len() {
        assert(other[index].parent == nodes[index].parent);
        match nodes[index].parent {
            Some(p) => if p < index {
                lemma_ancestors_same(nodes, w, text, p as int);
            },
            None => {},
        }
    }
}

/// Changing a node's text changes no inherited attribute.
proof fn lemma_inherited_same(nodes: Seq<NodeView>, w: int, text: Option<Seq<char>>, chain: Seq<int>, key: Seq<char>)
    requires
        0 <= w < nodes.len(),
        forall|k: int| 0 <= k < chain.len() ==> 0 <= #[trigger] chain[k] < nodes.len(),
    ensures
        inherited(with_text(nodes, w, text), chain, key) == inherited(nodes, chain, key),
        roles(with_text(nodes, w, text), chain) == roles(nodes, chain),
    decreases chain.len(),
{
    if chain.len() > 0 {
        let other = with_text(nodes, w, text);
        lemma_attribute_same(other[chain[0]], nodes[chain[0]], key);
        lemma_attribute_same(other[chain[0]], nodes[chain[0]], "role"@);
        lemma_inherited_same(nodes, w, text, chain.drop_first(), key);
    }
}

/// Every node of an ancestor chain is one of the nodes.
proof fn lemma_ancestors_within(nodes: Seq<NodeView>, index: int)
    ensures
        forall|k: int| 0 <= k < ancestors(nodes, index).len() ==> 0 <= #[trigger] ancestors(nodes, index)[k] < nodes.len(),
    decreases index,
{
    if 0 <= index < nodes.len() {
        match nodes[index].parent {
            Some(p) => if p < index {
                lemma_ancestors_within(nodes, p as int);
                let rest = ancestors(nodes, p as int);
                assert forall|k: int| 0 <= k < ancestors(nodes, index).len() implies 0
                    <= #[trigger] ancestors(nodes, index)[k] < nodes.len() by {
                    if k > 0 {
                        assert(ancestors(nodes, index)[k] == rest[k - 1]);
                    }
                }
            },
            None => {},
        }
    }
}

/// Reading a text node other than `w`, or `w` itself when it is skipped, gives the same
/// reading whatever text `w` holds.
proof fn lemma_word_same(nodes: Seq<NodeView>, w: int, text: Option<Seq<char>>, st: Reading, j: int)
    requires
        0 <= w < nodes.len(),
        0 <= j < nodes.len(),
        roles(nodes, ancestors(nodes, w)).contains("x-translation"@) || roles(nodes, ancestors(
            nodes,
            w,
        )).contains("x-roman"@),
    ensures
        word_step(with_text(nodes, w, text), st, j) == word_step(nodes, st, j),
{
    let other = with_text(nodes, w, text);
    lemma_ancestors_same(nodes, w, text, j);
    lemma_ancestors_within(nodes, j);
    let chain = ancestors(nodes, j);
    lemma_inherited_same(nodes, w, text, chain, "agent"@);
    lemma_inherited_same(nodes, w, text, chain, "begin"@);
    lemma_inherited_same(nodes, w, text, chain, "end"@);
    if j != w {
        assert(other[j] == nodes[j]);
    }
}

/// Reading a paragraph's words does not depend on the text of a skipped node.
proof fn lemma_paragraph_same(nodes: Seq<NodeView>, w: int, text: Option<Seq<char>>, st: Reading, p: int, upto: int)
    requires
        0 <= w < nodes.len(),
        upto <= nodes.len(),
        roles(nodes, ancestors(nodes, w)).contains("x-translation"@) || roles(nodes, ancestors(
            nodes,
            w,
        )).contains("x-roman"@),
    ensures
        paragraph_words(with_text(nodes, w, text), st, p, upto) == paragraph_words(nodes, st, p, upto),
    decreases upto - p,
{
    if upto > p {
        let other = with_text(nodes, w, text);
        lemma_paragraph_same(nodes, w, text, st, p, upto - 1);
        let j = upto - 1;
        if j >= 0 {
            lemma_ancestors_same(nodes, w, text, j);
            assert(other[j].text_node == nodes[j].text_node);
            let earlier = paragraph_words(nodes, st, p, upto - 1);
            lemma_word_same(nodes, w, text, earlier, j);
        }
    }
}

/// The declared agents do not depend on any node's text.
proof fn lemma_agents_same(nodes: Seq<NodeView>, w: int, text: Option<Seq<char>>, upto: int)
    requires
        0 <= w < nodes.len(),
        upto <= nodes.len(),
    ensures
        declared_agents(with_text(nodes, w, text), upto) == declared_agents(nodes, upto),
    decreases upto,
{
    if upto > 0 {
        let other = with_text(nodes, w, text);
        lemma_agents_same(nodes, w, text, upto - 1);
        lemma_attribute_same(other[upto - 1], nodes[upto - 1], "id"@);
        lemma_attribute_same(other[upto - 1], nodes[upto - 1], "type"@);
    }
}

/// Reading the elements does not depend on the text of a skipped node.
proof fn lemma_read_same(nodes: Seq<NodeView>, w: int, text: Option<Seq<char>>, upto: int)
    requires
        0 <= w < nodes.len(),
        upto <= nodes.len(),
        roles(nodes, ancestors(nodes, w)).contains("x-translation"@) || roles(nodes, ancestors(
            nodes,
            w,
        )).contains("x-roman"@),
    ensures
        read_upto(with_text(nodes, w, text), upto) == read_upto(nodes, upto),
    decreases upto,
{
    let other = with_text(nodes, w, text);
    if upto <= 0 {
        lemma_agents_same(nodes, w, text, nodes.len() as int);
    } else {
        lemma_read_same(nodes, w, text, upto - 1);
        let i = upto - 1;
        let st = read_upto(nodes, upto - 1);
        let node = nodes[i];
        let changed = other[i];
        lemma_attribute_same(changed, node, "songPart"@);
        lemma_attribute_same(changed, node, "song-part"@);
        lemma_attribute_same(changed, node, "begin"@);
        lemma_attribute_same(changed, node, "end"@);
        assert(division_step(changed, st) == division_step(node, st));
        let after_div = if node.name == "div"@ {
            division_step(node, st)
        } else {
            st
        };
        lemma_paragraph_same(nodes, w, text, after_div, i, nodes.len() as int);
    }
}

/// A romanization or a translation adds no lyric word: the text of a node inside an element
/// whose roles hold `x-roman` or `x-translation` does not matter to the reading, so the
/// voices and sections of a TTML document are the same whatever such a node says.
pub proof fn lemma_romanization_ignored(nodes: Seq<NodeView>, w: int, text: Option<Seq<char>>)
    requires
        0 <= w < nodes.len(),
        roles(nodes, ancestors(nodes, w)).contains("x-translation"@) || roles(nodes, ancestors(
            nodes,
            w,
        )).contains("x-roman"@),
    ensures
        ttml_reading(with_text(nodes, w, text)) == ttml_reading(nodes),
        ordered_voices(ttml_reading(with_text(nodes, w, text))) == ordered_voices(ttml_reading(nodes)),
{
    lemma_read_same(nodes, w, text, nodes.len() as int);
}

} // verus!
