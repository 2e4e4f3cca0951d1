//! Markdown fragments that can be rendered to text and appended to a note.

use vstd::prelude::*;
use vstd::string::StringExecFns;

verus! {

/// Types implementing `ToMarkdown` can be converted to a markdown string.
pub trait ToMarkdown {
    /// The rendered text, as contracts speak of it.
    spec fn md_view(&self) -> Seq<char>;

    /// Serializes the object to markdown.
    fn to_markdown(&self) -> (s: String)
        ensures
            s@ == self.md_view(),
    ;
}

impl<'a, T: ToMarkdown> ToMarkdown for &'a T {
    open spec fn md_view(&self) -> Seq<char> {
        (*self).md_view()
    }

    fn to_markdown(&self) -> (s: String) {
        (*self).to_markdown()
    }
}

impl ToMarkdown for String {
    open spec fn md_view(&self) -> Seq<char> {
        self@
    }

    fn to_markdown(&self) -> (s: String) {
        self.clone()
    }
}

impl ToMarkdown for &str {
    open spec fn md_view(&self) -> Seq<char> {
        self@
    }

    fn to_markdown(&self) -> (s: String) {
        String::from_str(*self)
    }
}

/// A markdown checklist item, rendered as `- [ ] text` or `- [x] text`.
pub struct CheckListItem {
    checked: bool,
    text: String,
}

impl CheckListItem {
    /// Whether the checkbox is ticked.
    pub closed spec fn spec_checked(&self) -> bool {
        self.checked
    }

    /// The item's text.
    pub closed spec fn spec_text(&self) -> Seq<char> {
        self.text@
    }

    /// Creates a new, unchecked checklist item.
    pub fn new(text: &str) -> (item: CheckListItem)
        ensures
            item.spec_text() == text@,
            !item.spec_checked(),
    {
        CheckListItem { checked: false, text: String::from_str(text) }
    }

    /// Sets the state of the checkbox.
    pub fn set(&mut self, checked: bool)
        ensures
            final(self).spec_checked() == checked,
            final(self).spec_text() == old(self).spec_text(),
    {
        self.checked = checked;
    }
}

impl ToMarkdown for CheckListItem {
    open spec fn md_view(&self) -> Seq<char> {
        if self.spec_checked() {
            "- [x] "@ + self.spec_text() + "\n"@
        } else {
            "- [ ] "@ + self.spec_text() + "\n"@
        }
    }

    fn to_markdown(&self) -> (s: String) {
        let mut s = if self.checked {
            String::from_str("- [x] ")
        } else {
            String::from_str("- [ ] ")
        };
        s.append(self.text.as_str());
        s.append("\n");
        s
    }
}

/// A wiki-style local link, rendered as `[[Some Page]]`.
pub struct LocalLink {
    reference: String,
}

impl LocalLink {
    /// The name of the page the link points at.
    pub closed spec fn spec_reference(&self) -> Seq<char> {
        self.reference@
    }

    /// Creates a new local link.
    pub fn new(reference: &str) -> (link: LocalLink)
        ensures
            link.spec_reference() == reference@,
    {
        LocalLink { reference: String::from_str(reference) }
    }
}

impl ToMarkdown for LocalLink {
    open spec fn md_view(&self) -> Seq<char> {
        "[["@ + self.spec_reference() + "]]"@
    }

    fn to_markdown(&self) -> (s: String) {
        let mut s = String::from_str("[[");
        s.append(self.reference.as_str());
        s.append("]]");
        s
    }
}

} // verus!
