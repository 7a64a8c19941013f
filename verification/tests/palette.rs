use canvas_diagram::palette::{
    class_hint, class_label, menu_of_package, msl_package_tree, LibraryClass, MenuEntry,
    PaletteSettings,
};

fn class(path: &str, icon_only: bool) -> LibraryClass {
    LibraryClass {
        msl_path: path.to_string(),
        name: path.rsplit('.').next().unwrap().to_string(),
        icon_only,
    }
}

fn library() -> Vec<LibraryClass> {
    vec![
        class("Modelica.Electrical.Resistor", false),
        class("Modelica.Blocks.Gain", false),
        class("Modelica.Icons.Example", true),
        class("Modelica.Electrical.Capacitor", false),
        class("Modelica.Blocks.Add", false),
        class("Top", false),
        class("Modelica.Blocks.Logo", true),
    ]
}

#[test]
fn classes_stand_under_their_packages_by_name() {
    let lib = library();
    let root = msl_package_tree(&lib);
    assert_eq!(root.classes, vec![5]);
    assert_eq!(root.subpackages.len(), 1);
    let modelica = &root.subpackages[0];
    assert_eq!(modelica.name, "Modelica");
    let names: Vec<&str> = modelica.node.subpackages.iter().map(|s| s.name.as_str()).collect();
    assert_eq!(names, vec!["Blocks", "Electrical", "Icons"]);
    assert_eq!(modelica.node.subpackages[0].node.classes, vec![4, 1, 6]);
    assert_eq!(modelica.node.subpackages[1].node.classes, vec![3, 0]);
    assert_eq!(modelica.node.subpackages[2].node.classes, vec![2]);
    assert!(modelica.node.has_non_icon_class);
    assert!(!modelica.node.subpackages[2].node.has_non_icon_class);
}

#[test]
fn icons_are_hidden_unless_asked_for() {
    let lib = library();
    let root = msl_package_tree(&lib);
    let modelica = &root.subpackages[0].node;
    let hidden = PaletteSettings::default();
    let shown = PaletteSettings { show_icon_only_classes: true };
    assert_eq!(
        menu_of_package(modelica, &lib, hidden),
        vec![MenuEntry::Package(0), MenuEntry::Package(1)]
    );
    assert_eq!(
        menu_of_package(modelica, &lib, shown),
        vec![MenuEntry::Package(0), MenuEntry::Package(1), MenuEntry::Package(2)]
    );
    assert_eq!(
        menu_of_package(&modelica.subpackages[0].node, &lib, hidden),
        vec![MenuEntry::Class(4), MenuEntry::Class(1)]
    );
    assert_eq!(
        menu_of_package(&root, &lib, hidden),
        vec![MenuEntry::Package(0), MenuEntry::Line, MenuEntry::Class(5)]
    );
}

#[test]
fn every_class_of_a_library_is_found() {
    let lib = library();
    let root = msl_package_tree(&lib);
    for (i, c) in lib.iter().enumerate() {
        let mut parts: Vec<&str> = c.msl_path.split('.').collect();
        parts.pop();
        let mut node = &root;
        for p in parts {
            node = &node.subpackages.iter().find(|s| s.name == p).unwrap().node;
        }
        assert!(node.classes.contains(&i));
    }
}

#[test]
fn an_empty_library_has_an_empty_menu() {
    let lib = vec![];
    let root = msl_package_tree(&lib);
    assert!(!root.has_non_icon_class);
    assert!(menu_of_package(&root, &lib, PaletteSettings::default()).is_empty());
}

#[test]
fn labels_and_hints() {
    assert_eq!(class_label(&Some("∿".to_string()), "Sine"), "∿  Sine");
    assert_eq!(class_label(&Some("".to_string()), "Sine"), "Sine");
    assert_eq!(class_label(&None, "Sine"), "Sine");
    assert_eq!(class_hint(&Some("A sine".to_string()), "Modelica.Sine"), "A sine");
    assert_eq!(class_hint(&None, "Modelica.Sine"), "Modelica.Sine");
}
