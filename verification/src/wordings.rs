//! What the web interface and the commands say, in each language.

use vstd::prelude::*;

use crate::i18n::Locale;

verus! {

/// How many wordings the web interface has.
pub const WEB_WORDINGS: usize = 87;

/// A wording: its key, then what it is in English and in French. A `%{…}` part
/// is a place that the browser fills in.
pub open spec fn web_wording(i: usize) -> (Seq<char>, Seq<char>, Seq<char>) {
    match i {
        0 => ("web.title"@, "Displays"@, "Écrans"@),
        1 => ("web.profile_badge"@, "Profile: %{name}"@, "Profil : %{name}"@),
        2 => ("web.connection"@, "Connected"@, "Connecté"@),
        3 => ("web.canvas_label"@, "Arrangement of the screens"@, "Disposition des écrans"@),
        4 => ("web.hint"@, "Drag the screens to arrange them"@, "Glissez les écrans pour les disposer"@),
        5 => ("web.select_prompt"@, "Select a screen"@, "Sélectionnez un écran"@),
        6 => ("web.guard.applied"@, "Layout applied"@, "Disposition appliquée"@),
        7 => ("web.guard.countdown"@, "Reverting in %{seconds} s"@, "Retour dans %{seconds} s"@),
        8 => ("web.guard.aria"@, "Confirm the new layout"@, "Confirmer la nouvelle disposition"@),
        9 => ("web.guard.keep"@, "Keep"@, "Conserver"@),
        10 => ("web.guard.revert"@, "Revert"@, "Rétablir"@),
        11 => ("web.guard.keys"@, "Enter to keep, Escape to revert"@, "Entrée pour conserver, Échap pour rétablir"@),
        12 => ("web.action.apply"@, "Apply"@, "Appliquer"@),
        13 => ("web.action.apply_title"@, "Apply the layout"@, "Appliquer la disposition"@),
        14 => ("web.action.pending"@, "Unapplied changes"@, "Modifications non appliquées"@),
        15 => ("web.action.reset"@, "Reset"@, "Réinitialiser"@),
        16 => ("web.action.auto"@, "Arrange"@, "Disposer"@),
        17 => ("web.action.rescan"@, "Rescan"@, "Redétecter"@),
        18 => ("web.action.export"@, "Export"@, "Exporter"@),
        19 => ("web.action.export_title"@, "Download the configuration"@, "Télécharger la configuration"@),
        20 => ("web.action.import"@, "Import"@, "Importer"@),
        21 => ("web.action.import_title"@, "Load a configuration"@, "Charger une configuration"@),
        22 => ("web.action.save"@, "Save as profile"@, "Enregistrer en profil"@),
        23 => ("web.action.persist"@, "Write the file"@, "Écrire le fichier"@),
        24 => ("web.field.enabled"@, "Enabled"@, "Activée"@),
        25 => ("web.field.mode"@, "Mode"@, "Mode"@),
        26 => ("web.field.scale"@, "Scale"@, "Échelle"@),
        27 => ("web.field.rotation"@, "Rotation"@, "Rotation"@),
        28 => ("web.field.flip"@, "Flip"@, "Retournement"@),
        29 => ("web.field.mirror"@, "Mirror"@, "Miroir"@),
        30 => ("web.field.vrr"@, "Variable refresh rate"@, "Fréquence variable"@),
        31 => ("web.mirror.none"@, "None"@, "Aucun"@),
        32 => ("web.screen.disabled"@, "disabled"@, "désactivé"@),
        33 => ("web.screen.flipped"@, "flipped"@, "retourné"@),
        34 => ("web.prompt.profile_name"@, "Name of the profile"@, "Nom du profil"@),
        35 => ("web.toast.applied"@, "Layout applied"@, "Disposition appliquée"@),
        36 => ("web.toast.rolled_back"@, "Layout refused, previous state restored"@, "Disposition refusée, état précédent rétabli"@),
        37 => ("web.toast.kept"@, "Layout kept"@, "Disposition conservée"@),
        38 => ("web.toast.reverted"@, "Previous layout restored"@, "Disposition précédente rétablie"@),
        39 => ("web.toast.profile_saved"@, "Profile %{name} saved"@, "Profil %{name} enregistré"@),
        40 => ("web.toast.persisted"@, "Written to %{path}"@, "Écrit dans %{path}"@),
        41 => ("web.toast.rescan_found"@, "%{count} outputs detected"@, "%{count} sorties détectées"@),
        42 => ("web.toast.rescan_none"@, "No new outputs"@, "Aucune nouvelle sortie"@),
        43 => ("web.toast.exported"@, "Configuration exported"@, "Configuration exportée"@),
        44 => ("web.toast.imported"@, "%{count} profiles imported"@, "%{count} profils importés"@),
        45 => ("web.toast.import_unreadable"@, "Unreadable file"@, "Fichier illisible"@),
        46 => ("web.import.confirm"@, "Replace the current configuration?"@, "Remplacer la configuration actuelle ?"@),
        47 => ("web.issue.overlap"@, "%{a} and %{b} overlap"@, "%{a} et %{b} se chevauchent"@),
        48 => ("web.issue.all_disabled"@, "All outputs are disabled"@, "Toutes les sorties sont désactivées"@),
        49 => ("web.issue.mirror_unavailable"@, "The mirrored output is unavailable"@, "La sortie recopiée est indisponible"@),
        50 => ("web.not_found"@, "Not found"@, "Introuvable"@),
        51 => ("web.theme.toggle_label"@, "Theme"@, "Thème"@),
        52 => ("web.theme.auto"@, "Automatic"@, "Automatique"@),
        53 => ("web.theme.light"@, "Light"@, "Clair"@),
        54 => ("web.theme.dark"@, "Dark"@, "Sombre"@),
        55 => ("web.history.title"@, "History"@, "Historique"@),
        56 => ("web.history.empty"@, "No recorded layouts"@, "Aucune disposition enregistrée"@),
        57 => ("web.history.remembered"@, "%{count} display sets remembered"@, "%{count} ensembles d'écrans mémorisés"@),
        58 => ("web.history.origin_manual"@, "manual"@, "manuelle"@),
        59 => ("web.history.restore"@, "Restore"@, "Rétablir"@),
        60 => ("web.history.restore_aria"@, "Restore the layout from %{when}"@, "Rétablir la disposition de %{when}"@),
        61 => ("web.history.restored"@, "Layout from %{when} restored"@, "Disposition de %{when} rétablie"@),
        62 => ("web.history.close"@, "Close"@, "Fermer"@),
        63 => ("web.no_outputs"@, "No outputs detected"@, "Aucune sortie détectée"@),
        64 => ("web.disconnected"@, "Disconnected"@, "Déconnecté"@),
        65 => ("web.tabs_label"@, "Sections"@, "Sections"@),
        66 => ("web.tab.screens"@, "Screens"@, "Écrans"@),
        67 => ("web.tab.input"@, "Keyboard and pointer"@, "Clavier et pointeur"@),
        68 => ("web.input.keyboard"@, "Keyboard"@, "Clavier"@),
        69 => ("web.input.layout"@, "Layout"@, "Disposition"@),
        70 => ("web.input.variant"@, "Variant"@, "Variante"@),
        71 => ("web.input.variant_none"@, "None"@, "Aucune"@),
        72 => ("web.input.variant_help"@, "Variants depend on the layout"@, "Les variantes dépendent de la disposition"@),
        73 => ("web.input.options"@, "Options"@, "Options"@),
        74 => ("web.input.options_add"@, "Add an option"@, "Ajouter une option"@),
        75 => ("web.input.options_none"@, "No options"@, "Aucune option"@),
        76 => ("web.input.option_remove"@, "Remove %{name}"@, "Retirer %{name}"@),
        77 => ("web.input.pointer"@, "Pointer"@, "Pointeur"@),
        78 => ("web.input.touchpad"@, "Touchpad"@, "Pavé tactile"@),
        79 => ("web.input.mouse"@, "Mouse"@, "Souris"@),
        80 => ("web.input.scroll"@, "Scrolling"@, "Défilement"@),
        81 => ("web.input.scroll_normal"@, "Normal"@, "Normal"@),
        82 => ("web.input.scroll_inverted"@, "Natural"@, "Naturel"@),
        83 => ("web.input.scroll_help"@, "Natural scrolling follows the fingers"@, "Le défilement naturel suit les doigts"@),
        84 => ("web.input.note"@, "Applied immediately"@, "Appliqué immédiatement"@),
        85 => ("web.toast.input_applied"@, "Settings applied"@, "Réglages appliqués"@),
        _ => ("web.toast.input_persisted"@, "Settings written to %{path}"@, "Réglages écrits dans %{path}"@),
    }
}

fn find_wording(i: usize) -> (r: (&'static str, &'static str, &'static str))
    ensures
        (r.0@, r.1@, r.2@) == web_wording(i),
{
    match i {
        0 => ("web.title", "Displays", "Écrans"),
        1 => ("web.profile_badge", "Profile: %{name}", "Profil : %{name}"),
        2 => ("web.connection", "Connected", "Connecté"),
        3 => ("web.canvas_label", "Arrangement of the screens", "Disposition des écrans"),
        4 => ("web.hint", "Drag the screens to arrange them", "Glissez les écrans pour les disposer"),
        5 => ("web.select_prompt", "Select a screen", "Sélectionnez un écran"),
        6 => ("web.guard.applied", "Layout applied", "Disposition appliquée"),
        7 => ("web.guard.countdown", "Reverting in %{seconds} s", "Retour dans %{seconds} s"),
        8 => ("web.guard.aria", "Confirm the new layout", "Confirmer la nouvelle disposition"),
        9 => ("web.guard.keep", "Keep", "Conserver"),
        10 => ("web.guard.revert", "Revert", "Rétablir"),
        11 => ("web.guard.keys", "Enter to keep, Escape to revert", "Entrée pour conserver, Échap pour rétablir"),
        12 => ("web.action.apply", "Apply", "Appliquer"),
        13 => ("web.action.apply_title", "Apply the layout", "Appliquer la disposition"),
        14 => ("web.action.pending", "Unapplied changes", "Modifications non appliquées"),
        15 => ("web.action.reset", "Reset", "Réinitialiser"),
        16 => ("web.action.auto", "Arrange", "Disposer"),
        17 => ("web.action.rescan", "Rescan", "Redétecter"),
        18 => ("web.action.export", "Export", "Exporter"),
        19 => ("web.action.export_title", "Download the configuration", "Télécharger la configuration"),
        20 => ("web.action.import", "Import", "Importer"),
        21 => ("web.action.import_title", "Load a configuration", "Charger une configuration"),
        22 => ("web.action.save", "Save as profile", "Enregistrer en profil"),
        23 => ("web.action.persist", "Write the file", "Écrire le fichier"),
        24 => ("web.field.enabled", "Enabled", "Activée"),
        25 => ("web.field.mode", "Mode", "Mode"),
        26 => ("web.field.scale", "Scale", "Échelle"),
        27 => ("web.field.rotation", "Rotation", "Rotation"),
        28 => ("web.field.flip", "Flip", "Retournement"),
        29 => ("web.field.mirror", "Mirror", "Miroir"),
        30 => ("web.field.vrr", "Variable refresh rate", "Fréquence variable"),
        31 => ("web.mirror.none", "None", "Aucun"),
        32 => ("web.screen.disabled", "disabled", "désactivé"),
        33 => ("web.screen.flipped", "flipped", "retourné"),
        34 => ("web.prompt.profile_name", "Name of the profile", "Nom du profil"),
        35 => ("web.toast.applied", "Layout applied", "Disposition appliquée"),
        36 => ("web.toast.rolled_back", "Layout refused, previous state restored", "Disposition refusée, état précédent rétabli"),
        37 => ("web.toast.kept", "Layout kept", "Disposition conservée"),
        38 => ("web.toast.reverted", "Previous layout restored", "Disposition précédente rétablie"),
        39 => ("web.toast.profile_saved", "Profile %{name} saved", "Profil %{name} enregistré"),
        40 => ("web.toast.persisted", "Written to %{path}", "Écrit dans %{path}"),
        41 => ("web.toast.rescan_found", "%{count} outputs detected", "%{count} sorties détectées"),
        42 => ("web.toast.rescan_none", "No new outputs", "Aucune nouvelle sortie"),
        43 => ("web.toast.exported", "Configuration exported", "Configuration exportée"),
        44 => ("web.toast.imported", "%{count} profiles imported", "%{count} profils importés"),
        45 => ("web.toast.import_unreadable", "Unreadable file", "Fichier illisible"),
        46 => ("web.import.confirm", "Replace the current configuration?", "Remplacer la configuration actuelle ?"),
        47 => ("web.issue.overlap", "%{a} and %{b} overlap", "%{a} et %{b} se chevauchent"),
        48 => ("web.issue.all_disabled", "All outputs are disabled", "Toutes les sorties sont désactivées"),
        49 => ("web.issue.mirror_unavailable", "The mirrored output is unavailable", "La sortie recopiée est indisponible"),
        50 => ("web.not_found", "Not found", "Introuvable"),
        51 => ("web.theme.toggle_label", "Theme", "Thème"),
        52 => ("web.theme.auto", "Automatic", "Automatique"),
        53 => ("web.theme.light", "Light", "Clair"),
        54 => ("web.theme.dark", "Dark", "Sombre"),
        55 => ("web.history.title", "History", "Historique"),
        56 => ("web.history.empty", "No recorded layouts", "Aucune disposition enregistrée"),
        57 => ("web.history.remembered", "%{count} display sets remembered", "%{count} ensembles d'écrans mémorisés"),
        58 => ("web.history.origin_manual", "manual", "manuelle"),
        59 => ("web.history.restore", "Restore", "Rétablir"),
        60 => ("web.history.restore_aria", "Restore the layout from %{when}", "Rétablir la disposition de %{when}"),
        61 => ("web.history.restored", "Layout from %{when} restored", "Disposition de %{when} rétablie"),
        62 => ("web.history.close", "Close", "Fermer"),
        63 => ("web.no_outputs", "No outputs detected", "Aucune sortie détectée"),
        64 => ("web.disconnected", "Disconnected", "Déconnecté"),
        65 => ("web.tabs_label", "Sections", "Sections"),
        66 => ("web.tab.screens", "Screens", "Écrans"),
        67 => ("web.tab.input", "Keyboard and pointer", "Clavier et pointeur"),
        68 => ("web.input.keyboard", "Keyboard", "Clavier"),
        69 => ("web.input.layout", "Layout", "Disposition"),
        70 => ("web.input.variant", "Variant", "Variante"),
        71 => ("web.input.variant_none", "None", "Aucune"),
        72 => ("web.input.variant_help", "Variants depend on the layout", "Les variantes dépendent de la disposition"),
        73 => ("web.input.options", "Options", "Options"),
        74 => ("web.input.options_add", "Add an option", "Ajouter une option"),
        75 => ("web.input.options_none", "No options", "Aucune option"),
        76 => ("web.input.option_remove", "Remove %{name}", "Retirer %{name}"),
        77 => ("web.input.pointer", "Pointer", "Pointeur"),
        78 => ("web.input.touchpad", "Touchpad", "Pavé tactile"),
        79 => ("web.input.mouse", "Mouse", "Souris"),
        80 => ("web.input.scroll", "Scrolling", "Défilement"),
        81 => ("web.input.scroll_normal", "Normal", "Normal"),
        82 => ("web.input.scroll_inverted", "Natural", "Naturel"),
        83 => ("web.input.scroll_help", "Natural scrolling follows the fingers", "Le défilement naturel suit les doigts"),
        84 => ("web.input.note", "Applied immediately", "Appliqué immédiatement"),
        85 => ("web.toast.input_applied", "Settings applied", "Réglages appliqués"),
        _ => ("web.toast.input_persisted", "Settings written to %{path}", "Réglages écrits dans %{path}"),
    }
}

/// The key of a wording with what it is in a language.
pub open spec fn web_pair(i: usize, locale: Locale) -> (Seq<char>, Seq<char>) {
    let (key, english, french) = web_wording(i);
    match locale {
        Locale::En => (key, english),
        Locale::Fr => (key, french),
    }
}

/// The strings the web interface needs, by key.
///
/// The placeholders are left untouched: the browser fills them in.
pub fn web_strings(locale: Locale) -> (r: Vec<(String, String)>)
    ensures
        r@.len() == WEB_WORDINGS,
        forall|i: int|
            0 <= i < r@.len() ==> (#[trigger] r@[i].0@, r@[i].1@) == web_pair(i as usize, locale),
{
    let mut r: Vec<(String, String)> = Vec::new();
    let mut i: usize = 0;
    while i < WEB_WORDINGS
        invariant
            i <= WEB_WORDINGS,
            r@.len() == i,
            forall|k: int|
                0 <= k < i ==> (#[trigger] r@[k].0@, r@[k].1@) == web_pair(k as usize, locale),
        decreases WEB_WORDINGS - i,
    {
        let (key, english, french) = find_wording(i);
        let text = match locale {
            Locale::En => english,
            Locale::Fr => french,
        };
        r.push((key.to_owned(), text.to_owned()));
        i += 1;
    }
    r
}

/// What the commands say.
#[derive(Debug, Clone, Copy, PartialEq, Eq, Structural)]
pub enum Phrase {
    Yes,
    No,
    ErrorTag,
    WarningTag,
    NoOutputsDetected,
    Output,
    State,
    ModeColumn,
    PositionColumn,
    Scale,
    Orientation,
    Identifier,
    DisabledOutput,
    MirrorOf,
    FocusedOutput,
    ActiveOutput,
    Star,
    NoModesAdvertised,
    Current,
    ProfileSaved,
    Compositor,
    ActiveColumn,
    Detected,
    LiveApply,
    GeneratedFiles,
    ActiveMark,
    CompositorHint,
    MainScreenCleared,
    MainScreen,
    MainScreenAbsent,
    NoMainScreen,
    MainScreenSet,
    NotApplied,
    PreviousLayoutRestored,
    RestoredLayout,
    HistoryCleared,
    NoRecordedLayouts,
    When,
    Origin,
    Layout,
    Manual,
    RememberedDisplaySets,
    ProfileDeleted,
    ProfileRenamed,
    NoProfilesIn,
    ProfileColumn,
    Outputs,
    Exact,
    Matches,
    MatchingProfile,
    NoMatchingProfile,
    Written,
    NotReferencedYetBy,
    AlreadyLoads,
    Backup,
    Added,
    DirectivesTakenOver,
    ReloadHint,
    WouldBeWrittenTo,
    NoPathToTheExecutable,
    ServiceInstalled,
    ServiceEnabledAndStarted,
    NotActiveInThisSession,
    ServiceMissing,
    CannotRemove,
    ServiceRemoved,
    ServiceInstalledState,
    ServiceEnabled,
    ServiceRunning,
    InvalidListeningAddress,
    WebInterface,
    Opening,
    CouldNotOpen,
    CannotWrite,
    CannotRead,
    Malformed,
    CannotBackUpTo,
    Unreachable,
    HyprlandCannotBeReached,
    SwayCannotBeReached,
    KeepThisConfiguration,
    YesNo,
    AutoRevertIn,
    NotFound,
}

impl Phrase {
    pub open spec fn english(self) -> Seq<char> {
        match self {
            Phrase::Yes => "yes"@,
            Phrase::No => "no"@,
            Phrase::ErrorTag => "error"@,
            Phrase::WarningTag => "warning"@,
            Phrase::NoOutputsDetected => "No outputs detected."@,
            Phrase::Output => "Output"@,
            Phrase::State => "State"@,
            Phrase::ModeColumn => "Mode"@,
            Phrase::PositionColumn => "Position"@,
            Phrase::Scale => "Scale"@,
            Phrase::Orientation => "Orientation"@,
            Phrase::Identifier => "Identifier"@,
            Phrase::DisabledOutput => "disabled"@,
            Phrase::MirrorOf => "mirror of"@,
            Phrase::FocusedOutput => "focused"@,
            Phrase::ActiveOutput => "active"@,
            Phrase::Star => "★ main screen"@,
            Phrase::NoModesAdvertised => "no modes advertised"@,
            Phrase::Current => "current"@,
            Phrase::ProfileSaved => "Profile saved"@,
            Phrase::Compositor => "Compositor"@,
            Phrase::ActiveColumn => "Active"@,
            Phrase::Detected => "Detected"@,
            Phrase::LiveApply => "Live apply"@,
            Phrase::GeneratedFiles => "Generated files"@,
            Phrase::ActiveMark => "● active"@,
            Phrase::CompositorHint => "Set `compositor` under [settings] to choose one."@,
            Phrase::MainScreenCleared => "No main screen any more."@,
            Phrase::MainScreen => "Main screen"@,
            Phrase::MainScreenAbsent => "The main screen is not connected"@,
            Phrase::NoMainScreen => "No main screen."@,
            Phrase::MainScreenSet => "Main screen set"@,
            Phrase::NotApplied => "The layout was not applied: the previous state was restored."@,
            Phrase::PreviousLayoutRestored => "Previous layout restored."@,
            Phrase::RestoredLayout => "Restored layout"@,
            Phrase::HistoryCleared => "History cleared."@,
            Phrase::NoRecordedLayouts => "No recorded layouts."@,
            Phrase::When => "When"@,
            Phrase::Origin => "Origin"@,
            Phrase::Layout => "Layout"@,
            Phrase::Manual => "manual"@,
            Phrase::RememberedDisplaySets => "Remembered display sets"@,
            Phrase::ProfileDeleted => "Profile deleted"@,
            Phrase::ProfileRenamed => "Profile renamed"@,
            Phrase::NoProfilesIn => "No profiles in"@,
            Phrase::ProfileColumn => "Profile"@,
            Phrase::Outputs => "Outputs"@,
            Phrase::Exact => "Exact"@,
            Phrase::Matches => "Matches"@,
            Phrase::MatchingProfile => "Matching profile"@,
            Phrase::NoMatchingProfile => "No matching profile: arranging automatically."@,
            Phrase::Written => "Written"@,
            Phrase::NotReferencedYetBy => "Not referenced yet by"@,
            Phrase::AlreadyLoads => "already loads"@,
            Phrase::Backup => "Backup"@,
            Phrase::Added => "Added"@,
            Phrase::DirectivesTakenOver => "Directives taken over"@,
            Phrase::ReloadHint => "Reload the compositor to load them."@,
            Phrase::WouldBeWrittenTo => "Would be written to"@,
            Phrase::NoPathToTheExecutable => "no path to the executable"@,
            Phrase::ServiceInstalled => "Service installed"@,
            Phrase::ServiceEnabledAndStarted => "Service enabled and started."@,
            Phrase::NotActiveInThisSession => "not active in this session"@,
            Phrase::ServiceMissing => "The service is not installed."@,
            Phrase::CannotRemove => "cannot remove"@,
            Phrase::ServiceRemoved => "Service removed"@,
            Phrase::ServiceInstalledState => "installed"@,
            Phrase::ServiceEnabled => "enabled"@,
            Phrase::ServiceRunning => "running"@,
            Phrase::InvalidListeningAddress => "invalid listening address"@,
            Phrase::WebInterface => "Web interface"@,
            Phrase::Opening => "Opening"@,
            Phrase::CouldNotOpen => "Could not open"@,
            Phrase::CannotWrite => "cannot write"@,
            Phrase::CannotRead => "cannot read"@,
            Phrase::Malformed => "malformed"@,
            Phrase::CannotBackUpTo => "cannot back up to"@,
            Phrase::Unreachable => "unreachable"@,
            Phrase::HyprlandCannotBeReached => "Hyprland cannot be reached"@,
            Phrase::SwayCannotBeReached => "sway cannot be reached"@,
            Phrase::KeepThisConfiguration => "Keep this configuration?"@,
            Phrase::YesNo => "y/N"@,
            Phrase::AutoRevertIn => "auto-revert in"@,
            Phrase::NotFound => "Not found"@,
        }
    }

    pub open spec fn french(self) -> Seq<char> {
        match self {
            Phrase::Yes => "oui"@,
            Phrase::No => "non"@,
            Phrase::ErrorTag => "erreur"@,
            Phrase::WarningTag => "avertissement"@,
            Phrase::NoOutputsDetected => "Aucune sortie détectée."@,
            Phrase::Output => "Sortie"@,
            Phrase::State => "État"@,
            Phrase::ModeColumn => "Mode"@,
            Phrase::PositionColumn => "Position"@,
            Phrase::Scale => "Échelle"@,
            Phrase::Orientation => "Orientation"@,
            Phrase::Identifier => "Identifiant"@,
            Phrase::DisabledOutput => "désactivée"@,
            Phrase::MirrorOf => "miroir de"@,
            Phrase::FocusedOutput => "active (focus)"@,
            Phrase::ActiveOutput => "active"@,
            Phrase::Star => "★ écran principal"@,
            Phrase::NoModesAdvertised => "aucun mode annoncé"@,
            Phrase::Current => "actuel"@,
            Phrase::ProfileSaved => "Profil enregistré"@,
            Phrase::Compositor => "Compositeur"@,
            Phrase::ActiveColumn => "Actif"@,
            Phrase::Detected => "Détecté"@,
            Phrase::LiveApply => "Application à chaud"@,
            Phrase::GeneratedFiles => "Fichiers générés"@,
            Phrase::ActiveMark => "● actif"@,
            Phrase::CompositorHint => "Définissez `compositor` sous [settings] pour en choisir un."@,
            Phrase::MainScreenCleared => "Plus d'écran principal."@,
            Phrase::MainScreen => "Écran principal"@,
            Phrase::MainScreenAbsent => "L'écran principal n'est pas branché"@,
            Phrase::NoMainScreen => "Aucun écran principal."@,
            Phrase::MainScreenSet => "Écran principal défini"@,
            Phrase::NotApplied => "La disposition n'a pas été appliquée : l'état précédent a été rétabli."@,
            Phrase::PreviousLayoutRestored => "Disposition précédente rétablie."@,
            Phrase::RestoredLayout => "Disposition rétablie :"@,
            Phrase::HistoryCleared => "Historique effacé."@,
            Phrase::NoRecordedLayouts => "Aucune disposition enregistrée."@,
            Phrase::When => "Quand"@,
            Phrase::Origin => "Origine"@,
            Phrase::Layout => "Disposition"@,
            Phrase::Manual => "manuelle"@,
            Phrase::RememberedDisplaySets => "Ensembles d'écrans mémorisés"@,
            Phrase::ProfileDeleted => "Profil supprimé"@,
            Phrase::ProfileRenamed => "Profil renommé"@,
            Phrase::NoProfilesIn => "Aucun profil dans"@,
            Phrase::ProfileColumn => "Profil"@,
            Phrase::Outputs => "Sorties"@,
            Phrase::Exact => "Exact"@,
            Phrase::Matches => "Correspond"@,
            Phrase::MatchingProfile => "Profil correspondant"@,
            Phrase::NoMatchingProfile => "Aucun profil correspondant : disposition automatique."@,
            Phrase::Written => "Écrit"@,
            Phrase::NotReferencedYetBy => "Pas encore référencé par"@,
            Phrase::AlreadyLoads => "charge déjà"@,
            Phrase::Backup => "Sauvegarde"@,
            Phrase::Added => "Ajouté"@,
            Phrase::DirectivesTakenOver => "Directives reprises"@,
            Phrase::ReloadHint => "Rechargez le compositeur pour les prendre en compte."@,
            Phrase::WouldBeWrittenTo => "Serait écrit dans"@,
            Phrase::NoPathToTheExecutable => "exécutable introuvable"@,
            Phrase::ServiceInstalled => "Service installé"@,
            Phrase::ServiceEnabledAndStarted => "Service activé et démarré."@,
            Phrase::NotActiveInThisSession => "inactive dans cette session"@,
            Phrase::ServiceMissing => "Le service n'est pas installé."@,
            Phrase::CannotRemove => "suppression impossible"@,
            Phrase::ServiceRemoved => "Service supprimé"@,
            Phrase::ServiceInstalledState => "installé"@,
            Phrase::ServiceEnabled => "activé"@,
            Phrase::ServiceRunning => "démarré"@,
            Phrase::InvalidListeningAddress => "adresse d'écoute invalide"@,
            Phrase::WebInterface => "Interface web"@,
            Phrase::Opening => "Ouverture de"@,
            Phrase::CouldNotOpen => "Impossible d'ouvrir"@,
            Phrase::CannotWrite => "écriture impossible"@,
            Phrase::CannotRead => "lecture impossible"@,
            Phrase::Malformed => "mal formé"@,
            Phrase::CannotBackUpTo => "sauvegarde impossible"@,
            Phrase::Unreachable => "injoignable"@,
            Phrase::HyprlandCannotBeReached => "Hyprland est injoignable"@,
            Phrase::SwayCannotBeReached => "sway est injoignable"@,
            Phrase::KeepThisConfiguration => "Conserver cette configuration ?"@,
            Phrase::YesNo => "o/N"@,
            Phrase::AutoRevertIn => "retour automatique dans"@,
            Phrase::NotFound => "Introuvable"@,
        }
    }

    /// The phrase in a language.
    pub open spec fn said(self, locale: Locale) -> Seq<char> {
        match locale {
            Locale::En => self.english(),
            Locale::Fr => self.french(),
        }
    }

    fn in_english(self) -> (r: &'static str)
        ensures
            r@ == self.english(),
    {
        match self {
            Phrase::Yes => "yes",
            Phrase::No => "no",
            Phrase::ErrorTag => "error",
            Phrase::WarningTag => "warning",
            Phrase::NoOutputsDetected => "No outputs detected.",
            Phrase::Output => "Output",
            Phrase::State => "State",
            Phrase::ModeColumn => "Mode",
            Phrase::PositionColumn => "Position",
            Phrase::Scale => "Scale",
            Phrase::Orientation => "Orientation",
            Phrase::Identifier => "Identifier",
            Phrase::DisabledOutput => "disabled",
            Phrase::MirrorOf => "mirror of",
            Phrase::FocusedOutput => "focused",
            Phrase::ActiveOutput => "active",
            Phrase::Star => "★ main screen",
            Phrase::NoModesAdvertised => "no modes advertised",
            Phrase::Current => "current",
            Phrase::ProfileSaved => "Profile saved",
            Phrase::Compositor => "Compositor",
            Phrase::ActiveColumn => "Active",
            Phrase::Detected => "Detected",
            Phrase::LiveApply => "Live apply",
            Phrase::GeneratedFiles => "Generated files",
            Phrase::ActiveMark => "● active",
            Phrase::CompositorHint => "Set `compositor` under [settings] to choose one.",
            Phrase::MainScreenCleared => "No main screen any more.",
            Phrase::MainScreen => "Main screen",
            Phrase::MainScreenAbsent => "The main screen is not connected",
            Phrase::NoMainScreen => "No main screen.",
            Phrase::MainScreenSet => "Main screen set",
            Phrase::NotApplied => "The layout was not applied: the previous state was restored.",
            Phrase::PreviousLayoutRestored => "Previous layout restored.",
            Phrase::RestoredLayout => "Restored layout",
            Phrase::HistoryCleared => "History cleared.",
            Phrase::NoRecordedLayouts => "No recorded layouts.",
            Phrase::When => "When",
            Phrase::Origin => "Origin",
            Phrase::Layout => "Layout",
            Phrase::Manual => "manual",
            Phrase::RememberedDisplaySets => "Remembered display sets",
            Phrase::ProfileDeleted => "Profile deleted",
            Phrase::ProfileRenamed => "Profile renamed",
            Phrase::NoProfilesIn => "No profiles in",
            Phrase::ProfileColumn => "Profile",
            Phrase::Outputs => "Outputs",
            Phrase::Exact => "Exact",
            Phrase::Matches => "Matches",
            Phrase::MatchingProfile => "Matching profile",
            Phrase::NoMatchingProfile => "No matching profile: arranging automatically.",
            Phrase::Written => "Written",
            Phrase::NotReferencedYetBy => "Not referenced yet by",
            Phrase::AlreadyLoads => "already loads",
            Phrase::Backup => "Backup",
            Phrase::Added => "Added",
            Phrase::DirectivesTakenOver => "Directives taken over",
            Phrase::ReloadHint => "Reload the compositor to load them.",
            Phrase::WouldBeWrittenTo => "Would be written to",
            Phrase::NoPathToTheExecutable => "no path to the executable",
            Phrase::ServiceInstalled => "Service installed",
            Phrase::ServiceEnabledAndStarted => "Service enabled and started.",
            Phrase::NotActiveInThisSession => "not active in this session",
            Phrase::ServiceMissing => "The service is not installed.",
            Phrase::CannotRemove => "cannot remove",
            Phrase::ServiceRemoved => "Service removed",
            Phrase::ServiceInstalledState => "installed",
            Phrase::ServiceEnabled => "enabled",
            Phrase::ServiceRunning => "running",
            Phrase::InvalidListeningAddress => "invalid listening address",
            Phrase::WebInterface => "Web interface",
            Phrase::Opening => "Opening",
            Phrase::CouldNotOpen => "Could not open",
            Phrase::CannotWrite => "cannot write",
            Phrase::CannotRead => "cannot read",
            Phrase::Malformed => "malformed",
            Phrase::CannotBackUpTo => "cannot back up to",
            Phrase::Unreachable => "unreachable",
            Phrase::HyprlandCannotBeReached => "Hyprland cannot be reached",
            Phrase::SwayCannotBeReached => "sway cannot be reached",
            Phrase::KeepThisConfiguration => "Keep this configuration?",
            Phrase::YesNo => "y/N",
            Phrase::AutoRevertIn => "auto-revert in",
            Phrase::NotFound => "Not found",
        }
    }

    fn in_french(self) -> (r: &'static str)
        ensures
            r@ == self.french(),
    {
        match self {
            Phrase::Yes => "oui",
            Phrase::No => "non",
            Phrase::ErrorTag => "erreur",
            Phrase::WarningTag => "avertissement",
            Phrase::NoOutputsDetected => "Aucune sortie détectée.",
            Phrase::Output => "Sortie",
            Phrase::State => "État",
            Phrase::ModeColumn => "Mode",
            Phrase::PositionColumn => "Position",
            Phrase::Scale => "Échelle",
            Phrase::Orientation => "Orientation",
            Phrase::Identifier => "Identifiant",
            Phrase::DisabledOutput => "désactivée",
            Phrase::MirrorOf => "miroir de",
            Phrase::FocusedOutput => "active (focus)",
            Phrase::ActiveOutput => "active",
            Phrase::Star => "★ écran principal",
            Phrase::NoModesAdvertised => "aucun mode annoncé",
            Phrase::Current => "actuel",
            Phrase::ProfileSaved => "Profil enregistré",
            Phrase::Compositor => "Compositeur",
            Phrase::ActiveColumn => "Actif",
            Phrase::Detected => "Détecté",
            Phrase::LiveApply => "Application à chaud",
            Phrase::GeneratedFiles => "Fichiers générés",
            Phrase::ActiveMark => "● actif",
            Phrase::CompositorHint => "Définissez `compositor` sous [settings] pour en choisir un.",
            Phrase::MainScreenCleared => "Plus d'écran principal.",
            Phrase::MainScreen => "Écran principal",
            Phrase::MainScreenAbsent => "L'écran principal n'est pas branché",
            Phrase::NoMainScreen => "Aucun écran principal.",
            Phrase::MainScreenSet => "Écran principal défini",
            Phrase::NotApplied => "La disposition n'a pas été appliquée : l'état précédent a été rétabli.",
            Phrase::PreviousLayoutRestored => "Disposition précédente rétablie.",
            Phrase::RestoredLayout => "Disposition rétablie :",
            Phrase::HistoryCleared => "Historique effacé.",
            Phrase::NoRecordedLayouts => "Aucune disposition enregistrée.",
            Phrase::When => "Quand",
            Phrase::Origin => "Origine",
            Phrase::Layout => "Disposition",
            Phrase::Manual => "manuelle",
            Phrase::RememberedDisplaySets => "Ensembles d'écrans mémorisés",
            Phrase::ProfileDeleted => "Profil supprimé",
            Phrase::ProfileRenamed => "Profil renommé",
            Phrase::NoProfilesIn => "Aucun profil dans",
            Phrase::ProfileColumn => "Profil",
            Phrase::Outputs => "Sorties",
            Phrase::Exact => "Exact",
            Phrase::Matches => "Correspond",
            Phrase::MatchingProfile => "Profil correspondant",
            Phrase::NoMatchingProfile => "Aucun profil correspondant : disposition automatique.",
            Phrase::Written => "Écrit",
            Phrase::NotReferencedYetBy => "Pas encore référencé par",
            Phrase::AlreadyLoads => "charge déjà",
            Phrase::Backup => "Sauvegarde",
            Phrase::Added => "Ajouté",
            Phrase::DirectivesTakenOver => "Directives reprises",
            Phrase::ReloadHint => "Rechargez le compositeur pour les prendre en compte.",
            Phrase::WouldBeWrittenTo => "Serait écrit dans",
            Phrase::NoPathToTheExecutable => "exécutable introuvable",
            Phrase::ServiceInstalled => "Service installé",
            Phrase::ServiceEnabledAndStarted => "Service activé et démarré.",
            Phrase::NotActiveInThisSession => "inactive dans cette session",
            Phrase::ServiceMissing => "Le service n'est pas installé.",
            Phrase::CannotRemove => "suppression impossible",
            Phrase::ServiceRemoved => "Service supprimé",
            Phrase::ServiceInstalledState => "installé",
            Phrase::ServiceEnabled => "activé",
            Phrase::ServiceRunning => "démarré",
            Phrase::InvalidListeningAddress => "adresse d'écoute invalide",
            Phrase::WebInterface => "Interface web",
            Phrase::Opening => "Ouverture de",
            Phrase::CouldNotOpen => "Impossible d'ouvrir",
            Phrase::CannotWrite => "écriture impossible",
            Phrase::CannotRead => "lecture impossible",
            Phrase::Malformed => "mal formé",
            Phrase::CannotBackUpTo => "sauvegarde impossible",
            Phrase::Unreachable => "injoignable",
            Phrase::HyprlandCannotBeReached => "Hyprland est injoignable",
            Phrase::SwayCannotBeReached => "sway est injoignable",
            Phrase::KeepThisConfiguration => "Conserver cette configuration ?",
            Phrase::YesNo => "o/N",
            Phrase::AutoRevertIn => "retour automatique dans",
            Phrase::NotFound => "Introuvable",
        }
    }

    pub fn text(self, locale: Locale) -> (r: &'static str)
        ensures
            r@ == self.said(locale),
    {
        match locale {
            Locale::En => self.in_english(),
            Locale::Fr => self.in_french(),
        }
    }
}

} // verus!
