use modlist::scrape::{
    classify_dependency, dependencies_in_fragment, download_url_from, files_in_container_html,
    install_link_in_page, mod_file_from, mod_files_in_page, mod_name_in_page, ModDependency,
    ModFile,
};
use modlist::ModError;

fn block(id: &str, name: &str, description: &str) -> String {
    format!(
        "<dl><dt data-id=\"{id}\" data-name=\"{name}\">x</dt><dd><div class=\"files-description\"><p>{description}</p></div></dd></dl>"
    )
}

#[test]
fn install_link_found() {
    let page = "<html><body><button id=\"slowDownloadButton\" data-download-url=\"https://cdn.example/f?sig=1\">Slow</button></body></html>";
    assert_eq!(install_link_in_page(page), Ok("https://cdn.example/f?sig=1".to_string()));
}

#[test]
fn install_link_missing_control_fails() {
    let page = "<html><body><button id=\"fastDownloadButton\">Fast</button></body></html>";
    assert_eq!(install_link_in_page(page), Err(ModError::ExtractionFailed));
    let page = "<html><body><button id=\"slowDownloadButton\">Slow</button></body></html>";
    assert_eq!(install_link_in_page(page), Err(ModError::ExtractionFailed));
    assert_eq!(download_url_from(None), Err(ModError::ExtractionFailed));
    assert_eq!(download_url_from(Some("u".to_string())), Ok("u".to_string()));
}

#[test]
fn mod_name_from_heading() {
    let page = "<html><body><h1>Cool Mod</h1><h1>Other</h1></body></html>";
    assert_eq!(mod_name_in_page(page), Ok("Cool Mod".to_string()));
    assert_eq!(mod_name_in_page("<p>none</p>"), Err(ModError::ExtractionFailed));
}

#[test]
fn files_from_container_blocks() {
    let page = format!(
        "<div id=\"c\">{}<dl><dt data-name=\"n\">x</dt></dl></div>",
        block("10", "Main File", "The main one")
    );
    assert_eq!(files_in_container_html(&page, "#c dl").err(), Some(ModError::ExtractionFailed));
    let page = format!(
        "<div id=\"c\">{}{}</div>",
        block("10", "Main File", "The main one"),
        block("11", "Other", "Second <b>bold</b>")
    );
    let files = files_in_container_html(&page, "#c dl").unwrap();
    assert_eq!(files.len(), 2);
    assert_eq!((files[0].id, files[0].name.as_str(), files[0].description.as_str()), (10, "Main File", "The main one"));
    assert_eq!((files[1].id, files[1].description.as_str()), (11, "Second bold"));
    assert!(files_in_container_html(&page, "#missing dl").unwrap().is_empty());
    assert!(files_in_container_html(&page, "[[bad").unwrap().is_empty());
}

#[test]
fn file_from_attributes() {
    let f = mod_file_from(&Some("12".to_string()), &Some("A".to_string()), &"d".to_string()).unwrap();
    assert_eq!((f.id, f.name.as_str(), f.description.as_str()), (12, "A", "d"));
    assert!(mod_file_from(&Some("x1".to_string()), &Some("A".to_string()), &String::new()).is_err());
    assert!(mod_file_from(&None, &Some("A".to_string()), &String::new()).is_err());
    assert!(mod_file_from(&Some("1".to_string()), &None, &String::new()).is_err());
}

#[test]
fn catalog_with_no_optional_blocks() {
    let page = format!(
        "<html><body><div id=\"file-container-main-files\">{}{}</div><div id=\"file-container-miscellaneous-files\">{}</div></body></html>",
        block("1", "A", "first"),
        block("2", "B", "second"),
        block("3", "C", "third")
    );
    let files = mod_files_in_page(&page).unwrap();
    assert_eq!(files.main_files.len(), 2);
    assert_eq!(files.main_files[1].id, 2);
    assert_eq!(files.optional_files.len(), 0);
    assert_eq!(files.misc_files.len(), 1);
    assert_eq!(files.misc_files[0].name, "C");
}

#[test]
fn catalog_with_broken_block_fails() {
    let page = "<div id=\"file-container-optional-files\"><dl><dt data-id=\"zz\" data-name=\"A\"></dt></dl></div>";
    assert_eq!(mod_files_in_page(page).err(), Some(ModError::ExtractionFailed));
}

#[test]
fn label_joins_name_and_description() {
    let f = ModFile { id: 1, name: "A".to_string(), description: "d".to_string() };
    assert_eq!(f.label(), "A   d");
}

#[test]
fn classify_links() {
    match classify_dependency("skyrimspecialedition", "https://www.nexusmods.com/skyrimspecialedition/mods/12604") {
        Ok(ModDependency::Mod(id)) => assert_eq!(id, 12604),
        _ => panic!("expected a mod"),
    }
    match classify_dependency("skyrimspecialedition", "https://example.com/tool") {
        Ok(ModDependency::External(url)) => assert_eq!(url, "https://example.com/tool"),
        _ => panic!("expected an outside link"),
    }
    match classify_dependency("fallout4", "https://www.nexusmods.com/skyrimspecialedition/mods/1") {
        Ok(ModDependency::External(_)) => {}
        _ => panic!("another game's mod is an outside link"),
    }
    assert!(classify_dependency("skyrimspecialedition", "https://www.nexusmods.com/skyrimspecialedition/mods/abc").is_err());
}

#[test]
fn dependencies_from_fragment() {
    let fragment = "<widget-mod-requirements><ul><li><a href=\"https://www.nexusmods.com/skyrimspecialedition/mods/17230\">SKSE</a></li><li><a href=\"https://skse.silverlock.org\">x</a></li></ul></widget-mod-requirements>";
    let deps = dependencies_in_fragment("skyrimspecialedition", fragment).unwrap();
    assert_eq!(deps.len(), 2);
    assert!(matches!(deps[0], ModDependency::Mod(17230)));
    assert!(matches!(&deps[1], ModDependency::External(u) if u == "https://skse.silverlock.org"));
    assert!(dependencies_in_fragment("skyrimspecialedition", "<p>none</p>").unwrap().is_empty());
    let missing = "<widget-mod-requirements><ul><li><a>no link</a></li></ul></widget-mod-requirements>";
    assert!(dependencies_in_fragment("skyrimspecialedition", missing).is_err());
}
