use vstd::prelude::*;
use vstd::string::*;
use crate::errors::{Error, ErrModel};
use crate::text::str_eq;

verus! {

/// One node of a parsed XML document: its tag name, its text content (the
/// text of its first child, where that child is a text node), and the
/// indices of its children in the document's node table.
pub struct XmlNode {
    pub tag: String,
    pub text: Option<String>,
    pub children: Vec<usize>,
}

/// Spec-level model of one XML node.
pub ghost struct XmlNodeModel {
    pub tag: Seq<char>,
    pub text: Option<Seq<char>>,
    pub children: Seq<int>,
}

impl View for XmlNode {
    type V = XmlNodeModel;

    open spec fn view(&self) -> XmlNodeModel {
        XmlNodeModel {
            tag: self.tag@,
            text: match self.text {
                Some(t) => Some(t@),
                None => None,
            },
            children: self.children@.map_values(|u: usize| u as int),
        }
    }
}

/// A parsed XML document: all nodes in document order, the root first, so
/// that "the first descendant with a given tag" is the lowest-index match.
pub struct Document {
    pub nodes: Vec<XmlNode>,
}

/// Every child index points into the node table.
pub open spec fn doc_wf(doc: Seq<XmlNodeModel>) -> bool {
    forall|i: int, j: int|
        0 <= i < doc.len() && 0 <= j < doc[i].children.len() ==> 0 <= #[trigger] doc[i].children[j]
            < doc.len()
}

impl View for Document {
    type V = Seq<XmlNodeModel>;

    open spec fn view(&self) -> Seq<XmlNodeModel> {
        self.nodes@.map_values(|n: XmlNode| n@)
    }
}

/// The first node at or after `i` whose tag is `name`, in document order.
pub open spec fn first_tagged_from(doc: Seq<XmlNodeModel>, i: int, name: Seq<char>) -> Option<int>
    decreases doc.len() - i,
{
    if i < 0 || i >= doc.len() {
        None
    } else if doc[i].tag == name {
        Some(i)
    } else {
        first_tagged_from(doc, i + 1, name)
    }
}

/// The first child of `p` (scanning its child list from position `j` on)
/// whose tag is `name`.
pub open spec fn first_child_tagged_from(
    doc: Seq<XmlNodeModel>,
    p: int,
    j: int,
    name: Seq<char>,
) -> Option<int>
    decreases (if 0 <= p < doc.len() {
        doc[p].children.len()
    } else {
        0
    }) - j,
{
    if !(0 <= p < doc.len()) || j < 0 || j >= doc[p].children.len() {
        None
    } else if 0 <= doc[p].children[j] < doc.len() && doc[doc[p].children[j]].tag == name {
        Some(doc[p].children[j])
    } else {
        first_child_tagged_from(doc, p, j + 1, name)
    }
}

impl Document {
    pub open spec fn wf(&self) -> bool {
        doc_wf(self@)
    }

    /// Depth-first search over the whole tree for the first element with the
    /// given tag name; with nodes stored in document order this is the
    /// lowest-index match. Fails with `FieldNotFound` when no node matches.
    pub fn lookup(&self, name: &str) -> (r: Result<usize, Error>)
        ensures
            match r {
                Ok(i) => first_tagged_from(self@, 0, name@) == Some(i as int) && i < self@.len(),
                Err(e) => first_tagged_from(self@, 0, name@) is None && e@
                    == ErrModel::FieldNotFound(name@),
            },
    {
        let mut i: usize = 0;
        while i < self.nodes.len()
            invariant
                i <= self@.len(),
                self@.len() == self.nodes@.len(),
                first_tagged_from(self@, 0, name@) == first_tagged_from(self@, i as int, name@),
            decreases self@.len() - i,
        {
            if str_eq(self.nodes[i].tag.as_str(), name) {
                proof {
                    assert(self@[i as int].tag == name@);
                }
                return Ok(i);
            }
            i = i + 1;
        }
        Err(Error::FieldNotFound(String::from_str(name)))
    }

    /// The same search restricted to the direct children of `parent`. Fails
    /// with `FieldNotFound` when no child matches.
    pub fn lookup_child(&self, parent: usize, name: &str) -> (r: Result<usize, Error>)
        requires
            self.wf(),
            parent < self@.len(),
        ensures
            match r {
                Ok(i) => first_child_tagged_from(self@, parent as int, 0, name@) == Some(i as int)
                    && i < self@.len(),
                Err(e) => first_child_tagged_from(self@, parent as int, 0, name@) is None && e@
                    == ErrModel::FieldNotFound(name@),
            },
    {
        let kids = &self.nodes[parent].children;
        let mut j: usize = 0;
        while j < kids.len()
            invariant
                self.wf(),
                parent < self@.len(),
                self@.len() == self.nodes@.len(),
                kids == &self.nodes@[parent as int].children,
                kids@.len() == self@[parent as int].children.len(),
                j <= kids@.len(),
                forall|m: int|
                    0 <= m < kids@.len() ==> self@[parent as int].children[m] == #[trigger] kids@[m] as int,
                first_child_tagged_from(self@, parent as int, 0, name@) == first_child_tagged_from(
                    self@,
                    parent as int,
                    j as int,
                    name@,
                ),
            decreases kids@.len() - j,
        {
            let c = kids[j];
            proof {
                assert(0 <= self@[parent as int].children[j as int] < self@.len());
            }
            if str_eq(self.nodes[c].tag.as_str(), name) {
                proof {
                    assert(self@[c as int].tag == name@);
                }
                return Ok(c);
            }
            j = j + 1;
        }
        Err(Error::FieldNotFound(String::from_str(name)))
    }

    /// The element's text content. Fails with `EmptyField` when the element
    /// has none.
    pub fn node_text(&self, id: usize) -> (r: Result<String, Error>)
        requires
            id < self@.len(),
        ensures
            match r {
                Ok(t) => self@[id as int].text == Some(t@),
                Err(e) => self@[id as int].text is None && e@ == ErrModel::EmptyField,
            },
    {
        match &self.nodes[id].text {
            Some(t) => Ok(t.clone()),
            None => Err(Error::EmptyField),
        }
    }
}

/// The node table that the XML parser yields for a text, in document order,
/// or `None` where the text is not well-formed XML. The result depends on
/// the characters alone.
pub uninterp spec fn xml_doc_of(s: Seq<char>) -> Option<Seq<XmlNodeModel>>;

/// Relies on roxmltree::Document::parse: parses XML text into a node tree
/// held in a vector in document order, where each node's id is its index in
/// that vector and every child id points into it.
#[verifier::external_body]
pub(crate) fn parse_xml(s: &str) -> (r: Result<Document, Error>)
    ensures
        match r {
            Ok(d) => xml_doc_of(s@) == Some(d@) && d.wf(),
            Err(e) => xml_doc_of(s@) is None && e@ == ErrModel::XmlParse,
        },
{
    match roxmltree::Document::parse(s) {
        Ok(doc) => Ok(Document {
            nodes: doc
                .descendants()
                .map(|n| XmlNode {
                    tag: n.tag_name().name().to_string(),
                    text: n.text().map(|t| t.to_string()),
                    children: n.children().map(|c| c.id().get_usize()).collect(),
                })
                .collect(),
        }),
        Err(_) => Err(Error::XmlParse),
    }
}

} // verus!
