use obsidian_notes::markdown::CheckListItem;
use obsidian_notes::markdown::LocalLink;
use obsidian_notes::markdown::ToMarkdown;

#[test]
fn checklist_item_unchecked() {
    let item = CheckListItem::new("bing bong");
    assert_eq!(item.to_markdown(), "- [ ] bing bong\n");
}

#[test]
fn checklist_item_checked() {
    let mut item = CheckListItem::new("bing bong");
    item.set(true);

    assert_eq!(item.to_markdown(), "- [x] bing bong\n");
}

#[test]
fn link() {
    let lnk = LocalLink::new("Some Page");
    assert_eq!(lnk.to_markdown(), "[[Some Page]]");
}

#[test]
fn checklist_item_toggles_back() {
    let mut item = CheckListItem::new("water the plants");
    item.set(true);
    item.set(false);
    assert_eq!(item.to_markdown(), "- [ ] water the plants\n");
}

#[test]
fn string_renders_as_itself() {
    let s = String::from("plain text");
    assert_eq!(s.to_markdown(), "plain text");
    assert_eq!("also plain".to_markdown(), "also plain");
}

#[test]
fn reference_renders_as_referent() {
    let lnk = LocalLink::new("Elsewhere");
    assert_eq!((&lnk).to_markdown(), "[[Elsewhere]]");
}
