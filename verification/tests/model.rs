use cica::model::{update, CicaModel, Command, ImgFileStatus, MainTab, Message};

type Model = CicaModel<String, u32>;

fn paths(names: &[&str]) -> Vec<String> {
    names.iter().map(|n| n.to_string()).collect()
}

fn loading_paths(model: &Model) -> Vec<Option<String>> {
    model
        .images()
        .iter()
        .map(|status| match status {
            ImgFileStatus::Loading(path) => Some(path.clone()),
            _ => None,
        })
        .collect()
}

#[test]
fn a_new_window_is_empty() {
    let model = Model::new();
    assert!(model.images().is_empty());
    assert_eq!(model.loading_files_count(), 0);
    assert_eq!(model.active_main_tab(), MainTab::ImageView);
    assert!(!model.is_loading(0));
}

#[test]
fn the_button_asks_for_files() {
    let (model, command) = update(Model::new(), Message::AddImageClicked);
    assert_eq!(command, Command::PickFiles);
    assert!(model.images().is_empty());
    assert_eq!(model.loading_files_count(), 0);
}

#[test]
fn a_chosen_tab_is_opened() {
    let (model, command) =
        update(Model::new(), Message::TabSelected(MainTab::RepresentativeColors));
    assert_eq!(command, Command::Nothing);
    assert_eq!(model.active_main_tab(), MainTab::RepresentativeColors);
    let (model, _) = update(model, Message::TabSelected(MainTab::ColorHistgrams));
    assert_eq!(model.active_main_tab(), MainTab::ColorHistgrams);
    let (model, command) = update(model, Message::EvalExprRequested);
    assert_eq!(command, Command::Nothing);
    assert_eq!(model.active_main_tab(), MainTab::ColorHistgrams);
}

#[test]
fn picked_files_are_listed_in_their_order() {
    let (model, command) =
        update(Model::new(), Message::FilesPicked(paths(&["a.png", "b.png", "c.png"])));
    assert_eq!(command, Command::OpenFiles { first: 0, count: 3 });
    assert_eq!(model.loading_files_count(), 3);
    assert_eq!(
        loading_paths(&model),
        vec![Some("a.png".to_string()), Some("b.png".to_string()), Some("c.png".to_string())]
    );
    let (model, command) = update(model, Message::FilesPicked(paths(&["d.png"])));
    assert_eq!(command, Command::OpenFiles { first: 3, count: 1 });
    assert_eq!(model.loading_files_count(), 4);
    assert_eq!(loading_paths(&model)[3], Some("d.png".to_string()));
    let (model, command) = update(model, Message::FilesPicked(Vec::new()));
    assert_eq!(command, Command::OpenFiles { first: 4, count: 0 });
    assert_eq!(model.loading_files_count(), 4);
    assert_eq!(model.images().len(), 4);
}

#[test]
fn an_opened_file_takes_its_place() {
    let (model, _) = update(Model::new(), Message::FilesPicked(paths(&["a.png", "b.txt", "c"])));
    assert!(model.is_loading(1));
    let report = ImgFileStatus::NotImage("b.txt".to_string(), "no picture".to_string());
    let (model, command) = update(model, Message::FileOpened((report, 1)));
    assert_eq!(command, Command::Nothing);
    assert_eq!(model.loading_files_count(), 2);
    assert!(!model.is_loading(1));
    assert!(model.is_loading(0) && model.is_loading(2));
    assert!(matches!(&model.images()[1], ImgFileStatus::NotImage(p, m) if p == "b.txt" && m == "no picture"));
    let (model, _) = update(model, Message::FileOpened((ImgFileStatus::Image(7), 0)));
    let report = ImgFileStatus::IOerror("c".to_string(), "gone".to_string());
    let (model, _) = update(model, Message::FileOpened((report, 2)));
    assert_eq!(model.loading_files_count(), 0);
    assert!(matches!(model.images()[0], ImgFileStatus::Image(7)));
    assert!(matches!(&model.images()[2], ImgFileStatus::IOerror(p, _) if p == "c"));
    assert!(!model.is_loading(3));
}

#[test]
fn a_window_opens_on_the_image_view() {
    assert_eq!(MainTab::default(), MainTab::ImageView);
}
