//! Short labels of the window's messages: the action log names each user
//! action, and the frame profiler buckets every message.

use vstd::prelude::*;

verus! {

/// The kind of a window message, without its payload.
#[derive(Debug, Clone, Copy, PartialEq, Eq, Structural)]
pub enum UiMessage {
    Tab,
    SearchChanged,
    SearchApply,
    PlayChannel,
    PlayChannelId,
    PlayVod,
    Stop,
    TogglePause,
    ToggleMute,
    VolumeChanged,
    SeekRel,
    SeekPercent,
    RestartStream,
    ToggleFullscreen,
    PlayerPointerActivity,
    PlayerChromeTick,
    CycleAudio,
    CycleSubtitles,
    PlayerTick,
    CatalogBootReady,
    NavBack,
    BrowseFocusDelta,
    BrowseActivate,
    SafPoll,
    SafResult,
    VideoFrameAllocated,
    CycleTheme,
    CycleAccent,
    SetAccent,
    FormName,
    FormKind,
    FormEndpoint,
    FormUser,
    FormPass,
    FormMac,
    FormEpg,
    FormOmdbKey,
    FormDnsServers,
    FormDohUrl,
    FormDotServer,
    FormWgPaste,
    SaveOmdbKey,
    CycleDnsMode,
    SaveNetworkDns,
    ProbeDns,
    DnsProbeDone,
    ToggleWireGuard,
    WireGuardTunnelDone,
    PickWireGuardProfile,
    WireGuardProfilePicked,
    ImportWireGuardPaste,
    ClearWireGuardProfile,
    ApplyWireGuardDns,
    PasteInto,
    ClipboardText,
    AddSource,
    AddPublicDemo,
    RemoveSource,
    ReloadSource,
    ExportProfile,
    ImportProfile,
    ProfileExportDone,
    ProfileImportDone,
    SourceLoaded,
    SourcesBatchLoaded,
    BundleCacheReady,
    OpenExternal,
    PickPlaylistFile,
    PlaylistFilePicked,
    ToggleFavorite,
    CycleBackend,
    ToggleHwdec,
    ToggleLowLatency,
    TogglePrefetchNext,
    CycleFpsGui,
    CycleFpsVideo,
    RefreshDisplayCaps,
    DiagnosePortals,
    PrefetchDone,
    DiagnoseDone,
    EpgFetched,
    VodCategoryLoaded,
    SeriesCategoryLoaded,
    OpenSeries,
    SeriesDetailLoaded,
    SeriesEpisodesEnriched,
    CloseSeriesDetail,
    OpenVodDetail,
    VodDetailLoaded,
    VodInfoBatch,
    CloseVodDetail,
    DetailMetaLoaded,
    CatFilterChanged,
    SelectBrowseCategory,
    LoadMore,
    BrowseScrolled,
    BrowseScrollBy,
    BrowseDragStart,
    BrowseDragAt,
    BrowseDragEnd,
    BrowseCoastTick,
    MosaicPress,
    CatScrolled,
    ImageLoaded,
    FlushPendingImages,
    CatalogIngestDone,
    CatalogIngestOneDone,
    BrowseIndexReady,
    MetaEnriched,
    OpenImdb,
    MainWindowOpened,
    PlayerWindowOpened,
    PlayerLayoutDirty,
    PlayerLayout,
    WindowResized,
    WindowClosed,
    ClosePlayerWindow,
    PlayerPanel,
    CycleSpeed,
    ToggleLoop,
    Screenshot,
    GotoDraftChanged,
    GotoSubmit,
    ToggleSubVisibility,
    CycleAspect,
    ToggleOntop,
    TogglePip,
    ChapterStep,
    PlaylistPrev,
    PlaylistNext,
    AddBookmark,
    JumpBookmark,
    CycleSleepTimer,
    MarkAbA,
    MarkAbB,
    ClearAbLoop,
    SubDelay,
    AudioDelay,
    CycleAudioMode,
    CycleEq,
    ToggleLoudnorm,
    ToggleDeinterlace,
    CycleUpscale,
    CycleRotate,
    NudgeZoom,
    ToggleNightVf,
    CycleCache,
    CycleDemux,
    PlayerHotkey,
}

/// The action-log label of a message; none for ticks, scrolling, layout
/// and background results that are not user actions.
pub open spec fn ui_action_text(m: UiMessage) -> Option<Seq<char>> {
    match m {
        UiMessage::Tab => Some("nav.onglet"@),
        UiMessage::SearchChanged |
        UiMessage::SearchApply |
        UiMessage::PlayerPointerActivity |
        UiMessage::PlayerChromeTick |
        UiMessage::PlayerTick |
        UiMessage::VideoFrameAllocated |
        UiMessage::BrowseScrolled |
        UiMessage::BrowseScrollBy |
        UiMessage::BrowseDragStart |
        UiMessage::BrowseDragAt |
        UiMessage::BrowseDragEnd |
        UiMessage::BrowseCoastTick |
        UiMessage::MosaicPress |
        UiMessage::CatScrolled |
        UiMessage::ImageLoaded |
        UiMessage::FlushPendingImages |
        UiMessage::MetaEnriched |
        UiMessage::PlayerLayoutDirty |
        UiMessage::PlayerLayout |
        UiMessage::WindowResized => None,
        UiMessage::PlayChannel |
        UiMessage::PlayChannelId => Some("lecteur.play_chaine"@),
        UiMessage::PlayVod => Some("lecteur.play_vod"@),
        UiMessage::Stop => Some("lecteur.stop"@),
        UiMessage::TogglePause => Some("lecteur.pause"@),
        UiMessage::ToggleMute => Some("lecteur.mute"@),
        UiMessage::VolumeChanged => Some("lecteur.volume"@),
        UiMessage::SeekRel => Some("lecteur.seek_rel"@),
        UiMessage::SeekPercent => Some("lecteur.seek_pct"@),
        UiMessage::RestartStream => Some("lecteur.reprise"@),
        UiMessage::ToggleFullscreen => Some("lecteur.plein_ecran"@),
        UiMessage::CycleAudio => Some("lecteur.piste_audio"@),
        UiMessage::CycleSubtitles => Some("lecteur.sous_titres"@),
        UiMessage::CatalogBootReady |
        UiMessage::SafPoll |
        UiMessage::SafResult |
        UiMessage::FormName |
        UiMessage::FormKind |
        UiMessage::FormEndpoint |
        UiMessage::FormUser |
        UiMessage::FormPass |
        UiMessage::FormMac |
        UiMessage::FormEpg |
        UiMessage::ExportProfile |
        UiMessage::ImportProfile |
        UiMessage::ProfileExportDone |
        UiMessage::ProfileImportDone |
        UiMessage::SourceLoaded |
        UiMessage::SourcesBatchLoaded |
        UiMessage::BundleCacheReady |
        UiMessage::PickPlaylistFile |
        UiMessage::PlaylistFilePicked |
        UiMessage::PrefetchDone |
        UiMessage::DiagnoseDone |
        UiMessage::EpgFetched |
        UiMessage::VodCategoryLoaded |
        UiMessage::SeriesCategoryLoaded |
        UiMessage::SeriesDetailLoaded |
        UiMessage::CatalogIngestDone |
        UiMessage::CatalogIngestOneDone |
        UiMessage::BrowseIndexReady |
        UiMessage::OpenImdb => Some("ui.autre"@),
        UiMessage::NavBack => Some("nav.retour"@),
        UiMessage::BrowseFocusDelta => Some("nav.browse_focus"@),
        UiMessage::BrowseActivate => Some("nav.browse_activate"@),
        UiMessage::CycleTheme => Some("reglages.theme"@),
        UiMessage::CycleAccent |
        UiMessage::SetAccent => Some("reglages.accent"@),
        UiMessage::FormOmdbKey => Some("reglages.omdb_key"@),
        UiMessage::FormDnsServers |
        UiMessage::FormDohUrl |
        UiMessage::FormDotServer => Some("reglages.dns_field"@),
        UiMessage::FormWgPaste => Some("reglages.wg_paste"@),
        UiMessage::SaveOmdbKey => Some("reglages.omdb_save"@),
        UiMessage::CycleDnsMode => Some("reglages.dns_mode"@),
        UiMessage::SaveNetworkDns => Some("reglages.dns_save"@),
        UiMessage::ProbeDns |
        UiMessage::DnsProbeDone => Some("reglages.dns_probe"@),
        UiMessage::ToggleWireGuard => Some("reglages.wg_toggle"@),
        UiMessage::WireGuardTunnelDone => Some("reglages.wg_tunnel"@),
        UiMessage::PickWireGuardProfile |
        UiMessage::WireGuardProfilePicked => Some("reglages.wg_pick"@),
        UiMessage::ImportWireGuardPaste => Some("reglages.wg_paste_import"@),
        UiMessage::ClearWireGuardProfile => Some("reglages.wg_clear"@),
        UiMessage::ApplyWireGuardDns => Some("reglages.wg_dns"@),
        UiMessage::PasteInto |
        UiMessage::ClipboardText => Some("presse_papiers.coller"@),
        UiMessage::AddSource |
        UiMessage::AddPublicDemo => Some("sources.ajout"@),
        UiMessage::RemoveSource => Some("sources.suppr"@),
        UiMessage::ReloadSource => Some("sources.reload"@),
        UiMessage::OpenExternal => Some("lecteur.externe"@),
        UiMessage::ToggleFavorite => Some("fav.toggle"@),
        UiMessage::CycleBackend => Some("reglages.backend"@),
        UiMessage::ToggleHwdec => Some("reglages.hwdec"@),
        UiMessage::ToggleLowLatency => Some("reglages.low_latency"@),
        UiMessage::TogglePrefetchNext => Some("reglages.prefetch"@),
        UiMessage::CycleFpsGui => Some("reglages.fps_gui"@),
        UiMessage::CycleFpsVideo => Some("reglages.fps_video"@),
        UiMessage::RefreshDisplayCaps => Some("reglages.display_caps"@),
        UiMessage::DiagnosePortals => Some("diag.portals"@),
        UiMessage::OpenSeries => Some("series.open"@),
        UiMessage::SeriesEpisodesEnriched => Some("series.episodes_meta"@),
        UiMessage::CloseSeriesDetail => Some("series.close"@),
        UiMessage::OpenVodDetail => Some("vod.open_detail"@),
        UiMessage::VodDetailLoaded => Some("vod.detail_loaded"@),
        UiMessage::VodInfoBatch => Some("vod.info_batch"@),
        UiMessage::CloseVodDetail => Some("vod.close_detail"@),
        UiMessage::DetailMetaLoaded => Some("meta.detail"@),
        UiMessage::CatFilterChanged => Some("nav.filtre"@),
        UiMessage::SelectBrowseCategory => Some("nav.categorie"@),
        UiMessage::LoadMore => Some("nav.load_more"@),
        UiMessage::MainWindowOpened => Some("fenetre.main_open"@),
        UiMessage::PlayerWindowOpened => Some("fenetre.player_open"@),
        UiMessage::WindowClosed => Some("fenetre.close"@),
        UiMessage::ClosePlayerWindow => Some("lecteur.fermer"@),
        UiMessage::PlayerPanel => Some("lecteur.panneau"@),
        UiMessage::CycleSpeed => Some("lecteur.vitesse"@),
        UiMessage::ToggleLoop => Some("lecteur.boucle"@),
        UiMessage::Screenshot => Some("lecteur.capture"@),
        UiMessage::GotoDraftChanged => Some("lecteur.goto_draft"@),
        UiMessage::GotoSubmit => Some("lecteur.goto"@),
        UiMessage::ToggleSubVisibility => Some("lecteur.st_visibilite"@),
        UiMessage::CycleAspect => Some("lecteur.aspect"@),
        UiMessage::ToggleOntop => Some("lecteur.ontop"@),
        UiMessage::TogglePip => Some("lecteur.pip"@),
        UiMessage::ChapterStep => Some("lecteur.chapitre"@),
        UiMessage::PlaylistPrev => Some("lecteur.piste_prec"@),
        UiMessage::PlaylistNext => Some("lecteur.piste_suiv"@),
        UiMessage::AddBookmark => Some("lecteur.signet_add"@),
        UiMessage::JumpBookmark => Some("lecteur.signet_jump"@),
        UiMessage::CycleSleepTimer => Some("lecteur.veille"@),
        UiMessage::MarkAbA => Some("lecteur.ab_a"@),
        UiMessage::MarkAbB => Some("lecteur.ab_b"@),
        UiMessage::ClearAbLoop => Some("lecteur.ab_clear"@),
        UiMessage::SubDelay => Some("lecteur.st_delay"@),
        UiMessage::AudioDelay => Some("lecteur.av_delay"@),
        UiMessage::CycleAudioMode => Some("lecteur.canaux_audio"@),
        UiMessage::CycleEq => Some("lecteur.eq"@),
        UiMessage::ToggleLoudnorm => Some("lecteur.loudnorm"@),
        UiMessage::ToggleDeinterlace => Some("lecteur.desentrelacement"@),
        UiMessage::CycleUpscale => Some("lecteur.upscale"@),
        UiMessage::CycleRotate => Some("lecteur.rotation"@),
        UiMessage::NudgeZoom => Some("lecteur.zoom"@),
        UiMessage::ToggleNightVf => Some("lecteur.mode_nuit"@),
        UiMessage::CycleCache => Some("reglages.cache"@),
        UiMessage::CycleDemux => Some("reglages.demux"@),
        UiMessage::PlayerHotkey => Some("lecteur.hotkey"@),
    }
}

/// The action-log label of a message.
pub fn ui_action_label(m: UiMessage) -> (r: Option<&'static str>)
    ensures
        crate::art::str_view(r) == ui_action_text(m),
{
    match m {
        UiMessage::Tab => Some("nav.onglet"),
        UiMessage::SearchChanged |
        UiMessage::SearchApply |
        UiMessage::PlayerPointerActivity |
        UiMessage::PlayerChromeTick |
        UiMessage::PlayerTick |
        UiMessage::VideoFrameAllocated |
        UiMessage::BrowseScrolled |
        UiMessage::BrowseScrollBy |
        UiMessage::BrowseDragStart |
        UiMessage::BrowseDragAt |
        UiMessage::BrowseDragEnd |
        UiMessage::BrowseCoastTick |
        UiMessage::MosaicPress |
        UiMessage::CatScrolled |
        UiMessage::ImageLoaded |
        UiMessage::FlushPendingImages |
        UiMessage::MetaEnriched |
        UiMessage::PlayerLayoutDirty |
        UiMessage::PlayerLayout |
        UiMessage::WindowResized => None,
        UiMessage::PlayChannel |
        UiMessage::PlayChannelId => Some("lecteur.play_chaine"),
        UiMessage::PlayVod => Some("lecteur.play_vod"),
        UiMessage::Stop => Some("lecteur.stop"),
        UiMessage::TogglePause => Some("lecteur.pause"),
        UiMessage::ToggleMute => Some("lecteur.mute"),
        UiMessage::VolumeChanged => Some("lecteur.volume"),
        UiMessage::SeekRel => Some("lecteur.seek_rel"),
        UiMessage::SeekPercent => Some("lecteur.seek_pct"),
        UiMessage::RestartStream => Some("lecteur.reprise"),
        UiMessage::ToggleFullscreen => Some("lecteur.plein_ecran"),
        UiMessage::CycleAudio => Some("lecteur.piste_audio"),
        UiMessage::CycleSubtitles => Some("lecteur.sous_titres"),
        UiMessage::CatalogBootReady |
        UiMessage::SafPoll |
        UiMessage::SafResult |
        UiMessage::FormName |
        UiMessage::FormKind |
        UiMessage::FormEndpoint |
        UiMessage::FormUser |
        UiMessage::FormPass |
        UiMessage::FormMac |
        UiMessage::FormEpg |
        UiMessage::ExportProfile |
        UiMessage::ImportProfile |
        UiMessage::ProfileExportDone |
        UiMessage::ProfileImportDone |
        UiMessage::SourceLoaded |
        UiMessage::SourcesBatchLoaded |
        UiMessage::BundleCacheReady |
        UiMessage::PickPlaylistFile |
        UiMessage::PlaylistFilePicked |
        UiMessage::PrefetchDone |
        UiMessage::DiagnoseDone |
        UiMessage::EpgFetched |
        UiMessage::VodCategoryLoaded |
        UiMessage::SeriesCategoryLoaded |
        UiMessage::SeriesDetailLoaded |
        UiMessage::CatalogIngestDone |
        UiMessage::CatalogIngestOneDone |
        UiMessage::BrowseIndexReady |
        UiMessage::OpenImdb => Some("ui.autre"),
        UiMessage::NavBack => Some("nav.retour"),
        UiMessage::BrowseFocusDelta => Some("nav.browse_focus"),
        UiMessage::BrowseActivate => Some("nav.browse_activate"),
        UiMessage::CycleTheme => Some("reglages.theme"),
        UiMessage::CycleAccent |
        UiMessage::SetAccent => Some("reglages.accent"),
        UiMessage::FormOmdbKey => Some("reglages.omdb_key"),
        UiMessage::FormDnsServers |
        UiMessage::FormDohUrl |
        UiMessage::FormDotServer => Some("reglages.dns_field"),
        UiMessage::FormWgPaste => Some("reglages.wg_paste"),
        UiMessage::SaveOmdbKey => Some("reglages.omdb_save"),
        UiMessage::CycleDnsMode => Some("reglages.dns_mode"),
        UiMessage::SaveNetworkDns => Some("reglages.dns_save"),
        UiMessage::ProbeDns |
        UiMessage::DnsProbeDone => Some("reglages.dns_probe"),
        UiMessage::ToggleWireGuard => Some("reglages.wg_toggle"),
        UiMessage::WireGuardTunnelDone => Some("reglages.wg_tunnel"),
        UiMessage::PickWireGuardProfile |
        UiMessage::WireGuardProfilePicked => Some("reglages.wg_pick"),
        UiMessage::ImportWireGuardPaste => Some("reglages.wg_paste_import"),
        UiMessage::ClearWireGuardProfile => Some("reglages.wg_clear"),
        UiMessage::ApplyWireGuardDns => Some("reglages.wg_dns"),
        UiMessage::PasteInto |
        UiMessage::ClipboardText => Some("presse_papiers.coller"),
        UiMessage::AddSource |
        UiMessage::AddPublicDemo => Some("sources.ajout"),
        UiMessage::RemoveSource => Some("sources.suppr"),
        UiMessage::ReloadSource => Some("sources.reload"),
        UiMessage::OpenExternal => Some("lecteur.externe"),
        UiMessage::ToggleFavorite => Some("fav.toggle"),
        UiMessage::CycleBackend => Some("reglages.backend"),
        UiMessage::ToggleHwdec => Some("reglages.hwdec"),
        UiMessage::ToggleLowLatency => Some("reglages.low_latency"),
        UiMessage::TogglePrefetchNext => Some("reglages.prefetch"),
        UiMessage::CycleFpsGui => Some("reglages.fps_gui"),
        UiMessage::CycleFpsVideo => Some("reglages.fps_video"),
        UiMessage::RefreshDisplayCaps => Some("reglages.display_caps"),
        UiMessage::DiagnosePortals => Some("diag.portals"),
        UiMessage::OpenSeries => Some("series.open"),
        UiMessage::SeriesEpisodesEnriched => Some("series.episodes_meta"),
        UiMessage::CloseSeriesDetail => Some("series.close"),
        UiMessage::OpenVodDetail => Some("vod.open_detail"),
        UiMessage::VodDetailLoaded => Some("vod.detail_loaded"),
        UiMessage::VodInfoBatch => Some("vod.info_batch"),
        UiMessage::CloseVodDetail => Some("vod.close_detail"),
        UiMessage::DetailMetaLoaded => Some("meta.detail"),
        UiMessage::CatFilterChanged => Some("nav.filtre"),
        UiMessage::SelectBrowseCategory => Some("nav.categorie"),
        UiMessage::LoadMore => Some("nav.load_more"),
        UiMessage::MainWindowOpened => Some("fenetre.main_open"),
        UiMessage::PlayerWindowOpened => Some("fenetre.player_open"),
        UiMessage::WindowClosed => Some("fenetre.close"),
        UiMessage::ClosePlayerWindow => Some("lecteur.fermer"),
        UiMessage::PlayerPanel => Some("lecteur.panneau"),
        UiMessage::CycleSpeed => Some("lecteur.vitesse"),
        UiMessage::ToggleLoop => Some("lecteur.boucle"),
        UiMessage::Screenshot => Some("lecteur.capture"),
        UiMessage::GotoDraftChanged => Some("lecteur.goto_draft"),
        UiMessage::GotoSubmit => Some("lecteur.goto"),
        UiMessage::ToggleSubVisibility => Some("lecteur.st_visibilite"),
        UiMessage::CycleAspect => Some("lecteur.aspect"),
        UiMessage::ToggleOntop => Some("lecteur.ontop"),
        UiMessage::TogglePip => Some("lecteur.pip"),
        UiMessage::ChapterStep => Some("lecteur.chapitre"),
        UiMessage::PlaylistPrev => Some("lecteur.piste_prec"),
        UiMessage::PlaylistNext => Some("lecteur.piste_suiv"),
        UiMessage::AddBookmark => Some("lecteur.signet_add"),
        UiMessage::JumpBookmark => Some("lecteur.signet_jump"),
        UiMessage::CycleSleepTimer => Some("lecteur.veille"),
        UiMessage::MarkAbA => Some("lecteur.ab_a"),
        UiMessage::MarkAbB => Some("lecteur.ab_b"),
        UiMessage::ClearAbLoop => Some("lecteur.ab_clear"),
        UiMessage::SubDelay => Some("lecteur.st_delay"),
        UiMessage::AudioDelay => Some("lecteur.av_delay"),
        UiMessage::CycleAudioMode => Some("lecteur.canaux_audio"),
        UiMessage::CycleEq => Some("lecteur.eq"),
        UiMessage::ToggleLoudnorm => Some("lecteur.loudnorm"),
        UiMessage::ToggleDeinterlace => Some("lecteur.desentrelacement"),
        UiMessage::CycleUpscale => Some("lecteur.upscale"),
        UiMessage::CycleRotate => Some("lecteur.rotation"),
        UiMessage::NudgeZoom => Some("lecteur.zoom"),
        UiMessage::ToggleNightVf => Some("lecteur.mode_nuit"),
        UiMessage::CycleCache => Some("reglages.cache"),
        UiMessage::CycleDemux => Some("reglages.demux"),
        UiMessage::PlayerHotkey => Some("lecteur.hotkey"),
    }
}

/// The profiler bucket of a message: ticks, layout, scrolling and
/// background results have their own, other messages use their action
/// label, or `ui.autre`.
pub open spec fn profile_text(m: UiMessage) -> Seq<char> {
    match m {
        UiMessage::SearchApply => "nav.filtre_apply"@,
        UiMessage::PlayerPointerActivity => "input.pointer"@,
        UiMessage::PlayerChromeTick => "tick.chrome"@,
        UiMessage::PlayerTick => "tick.player"@,
        UiMessage::VideoFrameAllocated => "tick.video_frame"@,
        UiMessage::ClipboardText => "async.clipboard"@,
        UiMessage::SourceLoaded => "async.source"@,
        UiMessage::SourcesBatchLoaded => "async.sources_batch"@,
        UiMessage::BundleCacheReady => "async.bundle_cache"@,
        UiMessage::PlaylistFilePicked => "async.file_pick"@,
        UiMessage::PrefetchDone => "async.prefetch"@,
        UiMessage::DiagnoseDone => "async.diagnose"@,
        UiMessage::EpgFetched => "async.epg"@,
        UiMessage::VodCategoryLoaded => "async.vod_category"@,
        UiMessage::SeriesCategoryLoaded => "async.series_category"@,
        UiMessage::SeriesDetailLoaded => "async.series_detail"@,
        UiMessage::SeriesEpisodesEnriched => "async.series_episodes"@,
        UiMessage::VodDetailLoaded => "async.vod_detail"@,
        UiMessage::VodInfoBatch => "async.vod_info_batch"@,
        UiMessage::DetailMetaLoaded => "async.detail_meta"@,
        UiMessage::BrowseScrolled => "scroll.browse"@,
        UiMessage::BrowseScrollBy => "scroll.browse_by"@,
        UiMessage::BrowseDragStart |
        UiMessage::BrowseDragAt |
        UiMessage::BrowseDragEnd => "scroll.browse_drag"@,
        UiMessage::BrowseCoastTick => "scroll.browse_coast"@,
        UiMessage::MosaicPress => "input.mosaic_press"@,
        UiMessage::CatScrolled => "scroll.cats"@,
        UiMessage::ImageLoaded => "async.image"@,
        UiMessage::FlushPendingImages => "async.image_flush"@,
        UiMessage::CatalogIngestDone => "async.catalog_ingest"@,
        UiMessage::CatalogIngestOneDone => "async.catalog_ingest_one"@,
        UiMessage::BrowseIndexReady => "async.browse_index"@,
        UiMessage::MetaEnriched => "async.meta"@,
        UiMessage::PlayerLayoutDirty => "layout.player_dirty"@,
        UiMessage::PlayerLayout => "layout.player"@,
        UiMessage::WindowResized => "layout.resize"@,
        _ => match ui_action_text(m) {
            Some(s) => s,
            None => "ui.autre"@,
        },
    }
}

/// The profiler bucket of a message.
pub fn profile_message_label(m: UiMessage) -> (r: &'static str)
    ensures
        r@ == profile_text(m),
{
    match m {
        UiMessage::SearchApply => "nav.filtre_apply",
        UiMessage::PlayerPointerActivity => "input.pointer",
        UiMessage::PlayerChromeTick => "tick.chrome",
        UiMessage::PlayerTick => "tick.player",
        UiMessage::VideoFrameAllocated => "tick.video_frame",
        UiMessage::ClipboardText => "async.clipboard",
        UiMessage::SourceLoaded => "async.source",
        UiMessage::SourcesBatchLoaded => "async.sources_batch",
        UiMessage::BundleCacheReady => "async.bundle_cache",
        UiMessage::PlaylistFilePicked => "async.file_pick",
        UiMessage::PrefetchDone => "async.prefetch",
        UiMessage::DiagnoseDone => "async.diagnose",
        UiMessage::EpgFetched => "async.epg",
        UiMessage::VodCategoryLoaded => "async.vod_category",
        UiMessage::SeriesCategoryLoaded => "async.series_category",
        UiMessage::SeriesDetailLoaded => "async.series_detail",
        UiMessage::SeriesEpisodesEnriched => "async.series_episodes",
        UiMessage::VodDetailLoaded => "async.vod_detail",
        UiMessage::VodInfoBatch => "async.vod_info_batch",
        UiMessage::DetailMetaLoaded => "async.detail_meta",
        UiMessage::BrowseScrolled => "scroll.browse",
        UiMessage::BrowseScrollBy => "scroll.browse_by",
        UiMessage::BrowseDragStart |
        UiMessage::BrowseDragAt |
        UiMessage::BrowseDragEnd => "scroll.browse_drag",
        UiMessage::BrowseCoastTick => "scroll.browse_coast",
        UiMessage::MosaicPress => "input.mosaic_press",
        UiMessage::CatScrolled => "scroll.cats",
        UiMessage::ImageLoaded => "async.image",
        UiMessage::FlushPendingImages => "async.image_flush",
        UiMessage::CatalogIngestDone => "async.catalog_ingest",
        UiMessage::CatalogIngestOneDone => "async.catalog_ingest_one",
        UiMessage::BrowseIndexReady => "async.browse_index",
        UiMessage::MetaEnriched => "async.meta",
        UiMessage::PlayerLayoutDirty => "layout.player_dirty",
        UiMessage::PlayerLayout => "layout.player",
        UiMessage::WindowResized => "layout.resize",
        _ => match ui_action_label(m) {
            Some(s) => s,
            None => "ui.autre",
        },
    }
}

} // verus!
