use xos_apps::appstore::{extension_packs, pack_button, InstalledPacks};

#[test]
fn the_packs_on_offer() {
    let packs = extension_packs();
    let ids: Vec<&str> = packs.iter().map(|p| p.id.as_str()).collect();
    assert_eq!(ids, vec!["developer", "security", "research", "ai", "media", "productivity"]);
    assert_eq!(packs[0].name, "Developer Toolkit");
    assert_eq!(packs[3].description, "Ollama, LM Studio, local model manager");
    assert_eq!(packs[5].icon, "x-office-document-symbolic");
}

#[test]
fn every_pack_with_its_name_description_and_icon() {
    let packs = extension_packs();
    let all: Vec<(&str, &str, &str, &str)> = packs
        .iter()
        .map(|p| (p.id.as_str(), p.name.as_str(), p.description.as_str(), p.icon.as_str()))
        .collect();
    assert_eq!(
        all,
        vec![
            ("developer", "Developer Toolkit", "Docker GUI, Git GUI, VS Code, Neovim", "utilities-terminal-symbolic"),
            ("security", "Security Toolkit", "Wireshark, nmap, Burp Community, KeePassXC", "security-high-symbolic"),
            ("research", "Research Toolkit", "Zotero, Obsidian, Xournal++, PDF annotator", "accessories-dictionary-symbolic"),
            ("ai", "AI Toolkit", "Ollama, LM Studio, local model manager", "weather-clear-symbolic"),
            ("media", "Media Toolkit", "OBS, Kdenlive, Audacity, screen recorder", "audio-x-generic-symbolic"),
            ("productivity", "Productivity Toolkit", "LibreOffice, Thunderbird, TaskWarrior", "x-office-document-symbolic"),
        ]
    );
}

#[test]
fn buttons() {
    assert_eq!(pack_button(true), ("Uninstall".to_string(), "destructive-action".to_string()));
    assert_eq!(pack_button(false), ("Install".to_string(), "suggested-action".to_string()));
}

#[test]
fn toggling_installs_and_uninstalls() {
    let mut s = InstalledPacks::new();
    assert!(!s.contains("ai"));
    s.toggle("ai");
    assert!(s.contains("ai"));
    s.toggle("media");
    assert_eq!(s.file_content(), "ai\nmedia\n");
    s.toggle("ai");
    assert!(!s.contains("ai"));
    assert_eq!(s.file_content(), "media\n");
    s.toggle("media");
    assert_eq!(s.file_content(), "");
}

#[test]
fn insert_and_remove_are_idempotent() {
    let mut s = InstalledPacks::new();
    s.insert("dev");
    s.insert("dev");
    assert_eq!(s.file_content(), "dev\n");
    s.remove("x");
    s.remove("dev");
    s.remove("dev");
    assert_eq!(s.file_content(), "");
}

#[test]
fn the_state_file_is_read_line_by_line() {
    let s = InstalledPacks::parse("  developer \n\n\tai\r\nai\n   \nmedia");
    assert!(s.contains("developer"));
    assert!(s.contains("ai"));
    assert!(s.contains("media"));
    assert!(!s.contains(""));
    assert_eq!(s.file_content(), "developer\nai\nmedia\n");
}

#[test]
fn writing_and_reading_back() {
    let mut s = InstalledPacks::new();
    s.toggle("security");
    s.toggle("research");
    let back = InstalledPacks::parse(&s.file_content());
    assert!(back.contains("security") && back.contains("research"));
    assert_eq!(back.file_content(), s.file_content());
}
