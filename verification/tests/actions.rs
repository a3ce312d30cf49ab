use fluxplay::actions::{profile_message_label, ui_action_label, UiMessage};

#[test]
fn action_labels() {
    assert_eq!(ui_action_label(UiMessage::Tab), Some("nav.onglet"));
    assert_eq!(ui_action_label(UiMessage::PlayChannelId), Some("lecteur.play_chaine"));
    assert_eq!(ui_action_label(UiMessage::FormDohUrl), Some("reglages.dns_field"));
    assert_eq!(ui_action_label(UiMessage::PlayerTick), None);
    assert_eq!(ui_action_label(UiMessage::SearchChanged), None);
    assert_eq!(ui_action_label(UiMessage::FormName), Some("ui.autre"));
    assert_eq!(ui_action_label(UiMessage::NavBack), Some("nav.retour"));
}

#[test]
fn profiler_buckets() {
    assert_eq!(profile_message_label(UiMessage::PlayerTick), "tick.player");
    assert_eq!(profile_message_label(UiMessage::BrowseDragAt), "scroll.browse_drag");
    assert_eq!(profile_message_label(UiMessage::SearchApply), "nav.filtre_apply");
    assert_eq!(profile_message_label(UiMessage::CycleEq), "lecteur.eq");
    assert_eq!(profile_message_label(UiMessage::SearchChanged), "ui.autre");
    assert_eq!(profile_message_label(UiMessage::ExportProfile), "ui.autre");
    assert_eq!(profile_message_label(UiMessage::VodInfoBatch), "async.vod_info_batch");
}
