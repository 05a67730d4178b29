//! What the program has to say: notices that are independent of any language,
//! and their wording in each language.

use vstd::prelude::*;

use crate::i18n::Locale;
use crate::monitor::Transform;
use crate::number::{int_text, nat_string};
use crate::text::{pieces, split, views};

verus! {

/// What a notice is about.
#[derive(Debug, Clone, Copy, PartialEq, Eq, Structural)]
pub enum NoticeId {
    InvalidRotation,
    InvalidTransform,
    InvalidRefresh,
    InvalidMode,
    InvalidWidth,
    InvalidHeight,
    DuplicateOutput,
    InvalidScale,
    NonIntegralScale,
    MirrorMissing,
    MirrorDisabled,
    Overlap,
    Unreachable,
    AllDisabled,
    PrimaryUnusable,
    UnknownAnchor,
    UnknownOutput,
    SelfReference,
    UnknownRelation,
    LayoutRequired,
    Rejected,
    UnreadableOption,
    StaleSignature,
    NotRunning,
    NoInstance,
    ManyInstances,
    SwayNotRunning,
    SwayBadFrame,
    SwayParseError,
    SwayUnknownError,
    SwaySubscribeFailed,
    UnexpectedResponse,
    UnknownCompositor,
    EmitHeader,
    EmitInputHeader,
    PrimaryComment,
    AdoptedComment,
    Vanished,
    EnabledButDisabled,
    DisabledButEnabled,
    ModeRefused,
    RefreshAdjusted,
    PositionRefused,
    TransformRefused,
    ScaleAdjusted,
    MirrorMismatch,
    NoLiveApply,
    ApplyRejected,
    InvalidPosition,
    InvalidAbscissa,
    InvalidOrdinate,
    ProfileMismatch,
    UnknownProfile,
    JustNow,
    MinutesAgo,
    HoursAgo,
    DaysAgo,
    NoDisplay,
    ServiceGenerated,
    RelativeExecutable,
    NoSystemd,
    SystemctlRejected,
    OriginProfile,
    OriginRecalled,
    OriginArranged,
    OriginUnchanged,
    NotifyConnected,
    NotifyDisconnected,
    NotifyChanged,
    NotifyStartup,
    NotifyFailed,
    NotifyManual,
    NoHistoryEntry,
    OutOfRange,
    InvalidOnOff,
    UnknownConnector,
    TriplesExpected,
    CompositorConfigured,
    CompositorDetected,
    NotABundle,
    BundleTooNew,
}

/// A value that a notice mentions.
#[derive(Debug, Clone, PartialEq, Eq)]
pub enum Arg {
    Text(String),
    Turn(Transform),
    Nothing,
}

pub ghost enum ArgView {
    Text(Seq<char>),
    Turn(Transform),
    Nothing,
}

impl View for Arg {
    type V = ArgView;

    open spec fn view(&self) -> ArgView {
        match *self {
            Arg::Text(s) => ArgView::Text(s@),
            Arg::Turn(t) => ArgView::Turn(t),
            Arg::Nothing => ArgView::Nothing,
        }
    }
}

/// A notice: what it is about, and the values it mentions in order.
#[derive(Debug, Clone, PartialEq, Eq)]
pub struct Notice {
    pub id: NoticeId,
    pub args: Vec<Arg>,
}

#[verifier::ext_equal]
pub ghost struct NoticeView {
    pub id: NoticeId,
    pub args: Seq<ArgView>,
}

pub open spec fn arg_views(v: Seq<Arg>) -> Seq<ArgView> {
    Seq::new(v.len(), |i: int| v[i]@)
}

impl View for Notice {
    type V = NoticeView;

    open spec fn view(&self) -> NoticeView {
        NoticeView { id: self.id, args: arg_views(self.args@) }
    }
}

/// The notice that mentions the given texts.
pub open spec fn note(id: NoticeId, texts: Seq<Seq<char>>) -> NoticeView {
    NoticeView { id, args: Seq::new(texts.len(), |i: int| ArgView::Text(texts[i])) }
}

/// An orientation in words.
pub open spec fn turn_text(t: Transform, locale: Locale) -> Seq<char> {
    let angle = int_text(t.rotation.angle()) + "°"@;
    if !t.flipped {
        angle
    } else {
        match locale {
            Locale::En => angle + " flipped"@,
            Locale::Fr => angle + " retourné"@,
        }
    }
}

pub open spec fn arg_text(a: ArgView, locale: Locale) -> Seq<char> {
    match a {
        ArgView::Text(s) => s,
        ArgView::Turn(t) => turn_text(t, locale),
        ArgView::Nothing => match locale {
            Locale::En => "none"@,
            Locale::Fr => "aucun"@,
        },
    }
}

/// The pieces with the arguments in the gaps between them.
pub open spec fn fill(parts: Seq<Seq<char>>, args: Seq<ArgView>, locale: Locale) -> Seq<char>
    decreases parts.len(),
{
    if parts.len() == 0 {
        Seq::empty()
    } else if parts.len() == 1 {
        parts[0]
    } else {
        let n = parts.len() - 2;
        let gap = if n < args.len() {
            arg_text(args[n], locale)
        } else {
            Seq::empty()
        };
        fill(parts.drop_last(), args, locale) + gap + parts.last()
    }
}

impl NoticeView {
    /// What the notice says in a language.
    pub open spec fn said(self, locale: Locale) -> Seq<char> {
        fill(split(template(self.id, locale), "{}"@), self.args, locale)
    }
}

/// The wording of a notice; each `{}` stands for the next value it mentions.
pub open spec fn template(id: NoticeId, locale: Locale) -> Seq<char> {
    match locale {
        Locale::En => english(id),
        Locale::Fr => french(id),
    }
}

/// The wordings in English.
pub open spec fn english(id: NoticeId) -> Seq<char> {
    match id {
        NoticeId::InvalidRotation => "invalid rotation: {} (expected 0, 90, 180 or 270)"@,
        NoticeId::InvalidTransform => "invalid transform: {} (expected 0 to 7)"@,
        NoticeId::InvalidRefresh => "invalid refresh rate in \"{}\""@,
        NoticeId::InvalidMode => "invalid mode \"{}\" (expected WxH or WxH@Hz)"@,
        NoticeId::InvalidWidth => "invalid width in \"{}\""@,
        NoticeId::InvalidHeight => "invalid height in \"{}\""@,
        NoticeId::DuplicateOutput => "output {} is defined {} times"@,
        NoticeId::InvalidScale => "{}: invalid scale {}"@,
        NoticeId::NonIntegralScale => "{}: scale {} gives a non-integral logical size ({} x {}), use {}"@,
        NoticeId::MirrorMissing => "{} mirrors {}, which does not exist"@,
        NoticeId::MirrorDisabled => "{} mirrors {}, which is disabled"@,
        NoticeId::Overlap => "{} and {} overlap"@,
        NoticeId::Unreachable => "{} touches no other display: the pointer cannot reach it"@,
        NoticeId::AllDisabled => "every display would be disabled"@,
        NoticeId::PrimaryUnusable => "the main screen {} is missing, disabled or mirroring: the layout is anchored at its top-left corner"@,
        NoticeId::UnknownAnchor => "unknown reference display {}"@,
        NoticeId::UnknownOutput => "unknown display {}"@,
        NoticeId::SelfReference => "{} cannot be placed relative to itself"@,
        NoticeId::UnknownRelation => "unknown relation \"{}\" (expected left-of, right-of, above, below or same-as)"@,
        NoticeId::LayoutRequired => "a keyboard layout is required"@,
        NoticeId::Rejected => "the compositor rejected the change: {} (sent: {})"@,
        NoticeId::UnreadableOption => "could not read the option {}"@,
        NoticeId::StaleSignature => "no Hyprland instance for the signature {}: {} does not exist"@,
        NoticeId::NotRunning => "Hyprland does not seem to be running: {} cannot be read"@,
        NoticeId::NoInstance => "no Hyprland instance in {}"@,
        NoticeId::ManyInstances => "{} Hyprland instances in {}: set HYPRLAND_INSTANCE_SIGNATURE"@,
        NoticeId::SwayNotRunning => "sway does not seem to be running: neither SWAYSOCK nor I3SOCK is set"@,
        NoticeId::SwayBadFrame => "sway sent something that is not an IPC message"@,
        NoticeId::SwayParseError => "sway could not parse the command"@,
        NoticeId::SwayUnknownError => "sway gave no reason"@,
        NoticeId::SwaySubscribeFailed => "sway refused the subscription to its events"@,
        NoticeId::UnexpectedResponse => "unexpected response: {}"@,
        NoticeId::UnknownCompositor => "unknown compositor \"{}\" (known: {})"@,
        NoticeId::EmitHeader => "Generated by hyprdmc — DO NOT EDIT BY HAND."@,
        NoticeId::EmitInputHeader => "Generated by hyprdmc — DO NOT EDIT BY HAND.\nKeyboard and pointer only: the screens live in the monitor file."@,
        NoticeId::PrimaryComment => "main screen: {}"@,
        NoticeId::AdoptedComment => "hyprdmc: moved to {}"@,
        NoticeId::Vanished => "{} has disappeared"@,
        NoticeId::EnabledButDisabled => "{} should be enabled but is disabled"@,
        NoticeId::DisabledButEnabled => "{} should be disabled but is enabled"@,
        NoticeId::ModeRefused => "{}: mode refused, wanted {} and got {}"@,
        NoticeId::RefreshAdjusted => "{}: refresh rate adjusted from {} Hz to {} Hz"@,
        NoticeId::PositionRefused => "{}: position refused, wanted {} and got {}"@,
        NoticeId::TransformRefused => "{}: orientation refused, wanted {} and got {}"@,
        NoticeId::ScaleAdjusted => "{}: scale adjusted from {} to {}"@,
        NoticeId::MirrorMismatch => "{}: mirroring differs, wanted {} and got {}"@,
        NoticeId::NoLiveApply => "{} cannot be reconfigured while it is running: only the file {} can be written"@,
        NoticeId::ApplyRejected => "layout rejected:\n{}"@,
        NoticeId::InvalidPosition => "invalid position \"{}\" (expected XxY, for example 1920x0)"@,
        NoticeId::InvalidAbscissa => "invalid x coordinate in \"{}\""@,
        NoticeId::InvalidOrdinate => "invalid y coordinate in \"{}\""@,
        NoticeId::ProfileMismatch => "profile \"{}\" does not match the connected displays"@,
        NoticeId::UnknownProfile => "unknown profile \"{}\""@,
        NoticeId::JustNow => "just now"@,
        NoticeId::MinutesAgo => "{} min ago"@,
        NoticeId::HoursAgo => "{} h ago"@,
        NoticeId::DaysAgo => "{} d ago"@,
        NoticeId::NoDisplay => "no graphical session (neither WAYLAND_DISPLAY nor DISPLAY is set)"@,
        NoticeId::ServiceGenerated => "Generated by hyprdmc service install."@,
        NoticeId::RelativeExecutable => "the path of the executable is not absolute: {}"@,
        NoticeId::NoSystemd => "systemd is not running this session"@,
        NoticeId::SystemctlRejected => "systemctl --user {} failed: {}"@,
        NoticeId::OriginProfile => "Profile \"{}\" applied"@,
        NoticeId::OriginRecalled => "Restored the layout you last used with these displays"@,
        NoticeId::OriginArranged => "No known layout: displays arranged left to right"@,
        NoticeId::OriginUnchanged => "No known layout: displays left as they are"@,
        NoticeId::NotifyConnected => "connected: {}"@,
        NoticeId::NotifyDisconnected => "disconnected: {}"@,
        NoticeId::NotifyChanged => "displays changed"@,
        NoticeId::NotifyStartup => "hyprdmc started"@,
        NoticeId::NotifyFailed => "the displays could not be configured"@,
        NoticeId::NotifyManual => "automatic configuration is off"@,
        NoticeId::NoHistoryEntry => "no history entry at position {}"@,
        NoticeId::OutOfRange => "the layout does not fit into the coordinates that a compositor takes"@,
        NoticeId::InvalidOnOff => "invalid value \"{}\" (expected on or off)"@,
        NoticeId::UnknownConnector => "unknown output {} (known: {})"@,
        NoticeId::TriplesExpected => "expected triples of output, relation and reference, got {} words"@,
        NoticeId::CompositorConfigured => "compositor: {} (configured)"@,
        NoticeId::CompositorDetected => "compositor: {} (detected)"@,
        NoticeId::NotABundle => "this file is not an exported hyprdmc configuration"@,
        NoticeId::BundleTooNew => "this configuration has version {}, and only versions up to {} can be read"@,
    }
}

/// The wordings in French.
pub open spec fn french(id: NoticeId) -> Seq<char> {
    match id {
        NoticeId::InvalidRotation => "rotation invalide : {} (attendu 0, 90, 180 ou 270)"@,
        NoticeId::InvalidTransform => "transformation invalide : {} (attendu 0 à 7)"@,
        NoticeId::InvalidRefresh => "fréquence invalide dans « {} »"@,
        NoticeId::InvalidMode => "mode invalide « {} » (attendu LxH ou LxH@Hz)"@,
        NoticeId::InvalidWidth => "largeur invalide dans « {} »"@,
        NoticeId::InvalidHeight => "hauteur invalide dans « {} »"@,
        NoticeId::DuplicateOutput => "la sortie {} est définie {} fois"@,
        NoticeId::InvalidScale => "{} : échelle invalide {}"@,
        NoticeId::NonIntegralScale => "{} : l'échelle {} donne une taille logique non entière ({} x {}), utilisez {}"@,
        NoticeId::MirrorMissing => "{} recopie {}, qui n'existe pas"@,
        NoticeId::MirrorDisabled => "{} recopie {}, qui est désactivée"@,
        NoticeId::Overlap => "{} et {} se chevauchent"@,
        NoticeId::Unreachable => "{} ne touche aucun autre écran : le pointeur ne peut pas l'atteindre"@,
        NoticeId::AllDisabled => "tous les écrans seraient désactivés"@,
        NoticeId::PrimaryUnusable => "l'écran principal {} est absent, désactivé ou en recopie : la disposition part de son coin supérieur gauche"@,
        NoticeId::UnknownAnchor => "écran de référence inconnu : {}"@,
        NoticeId::UnknownOutput => "écran inconnu : {}"@,
        NoticeId::SelfReference => "{} ne peut pas être placé par rapport à lui-même"@,
        NoticeId::UnknownRelation => "relation inconnue « {} » (attendu gauche-de, droite-de, au-dessus-de, en-dessous-de ou same-as)"@,
        NoticeId::LayoutRequired => "une disposition de clavier est requise"@,
        NoticeId::Rejected => "le compositeur a refusé le changement : {} (envoyé : {})"@,
        NoticeId::UnreadableOption => "impossible de lire l'option {}"@,
        NoticeId::StaleSignature => "aucune instance Hyprland pour la signature {} : {} n'existe pas"@,
        NoticeId::NotRunning => "Hyprland ne semble pas lancé : {} est illisible"@,
        NoticeId::NoInstance => "aucune instance Hyprland dans {}"@,
        NoticeId::ManyInstances => "{} instances Hyprland dans {} : définissez HYPRLAND_INSTANCE_SIGNATURE"@,
        NoticeId::SwayNotRunning => "sway ne semble pas lancé : ni SWAYSOCK ni I3SOCK n'est défini"@,
        NoticeId::SwayBadFrame => "sway a envoyé autre chose qu'un message IPC"@,
        NoticeId::SwayParseError => "sway n'a pas compris la commande"@,
        NoticeId::SwayUnknownError => "sway n'a donné aucune raison"@,
        NoticeId::SwaySubscribeFailed => "sway a refusé l'abonnement à ses événements"@,
        NoticeId::UnexpectedResponse => "réponse inattendue : {}"@,
        NoticeId::UnknownCompositor => "compositeur inconnu « {} » (connus : {})"@,
        NoticeId::EmitHeader => "Généré par hyprdmc — NE PAS MODIFIER À LA MAIN."@,
        NoticeId::EmitInputHeader => "Généré par hyprdmc — NE PAS MODIFIER À LA MAIN.\nClavier et pointeur seulement : les écrans sont dans le fichier des moniteurs."@,
        NoticeId::PrimaryComment => "écran principal : {}"@,
        NoticeId::AdoptedComment => "hyprdmc : déplacé dans {}"@,
        NoticeId::Vanished => "{} a disparu"@,
        NoticeId::EnabledButDisabled => "{} devrait être activée mais est désactivée"@,
        NoticeId::DisabledButEnabled => "{} devrait être désactivée mais est activée"@,
        NoticeId::ModeRefused => "{} : mode refusé, demandé {} et obtenu {}"@,
        NoticeId::RefreshAdjusted => "{} : fréquence ajustée de {} Hz à {} Hz"@,
        NoticeId::PositionRefused => "{} : position refusée, demandé {} et obtenu {}"@,
        NoticeId::TransformRefused => "{} : orientation refusée, demandé {} et obtenu {}"@,
        NoticeId::ScaleAdjusted => "{} : échelle ajustée de {} à {}"@,
        NoticeId::MirrorMismatch => "{} : recopie différente, demandé {} et obtenu {}"@,
        NoticeId::NoLiveApply => "{} ne peut pas être reconfiguré à chaud : seul le fichier {} peut être écrit"@,
        NoticeId::ApplyRejected => "disposition refusée :\n{}"@,
        NoticeId::InvalidPosition => "position invalide « {} » (attendu XxY, par exemple 1920x0)"@,
        NoticeId::InvalidAbscissa => "abscisse invalide dans « {} »"@,
        NoticeId::InvalidOrdinate => "ordonnée invalide dans « {} »"@,
        NoticeId::ProfileMismatch => "le profil « {} » ne correspond pas aux écrans branchés"@,
        NoticeId::UnknownProfile => "profil « {} » inconnu"@,
        NoticeId::JustNow => "à l'instant"@,
        NoticeId::MinutesAgo => "il y a {} min"@,
        NoticeId::HoursAgo => "il y a {} h"@,
        NoticeId::DaysAgo => "il y a {} j"@,
        NoticeId::NoDisplay => "aucune session graphique (ni WAYLAND_DISPLAY ni DISPLAY n'est défini)"@,
        NoticeId::ServiceGenerated => "Généré par hyprdmc service install."@,
        NoticeId::RelativeExecutable => "le chemin de l'exécutable n'est pas absolu : {}"@,
        NoticeId::NoSystemd => "systemd ne gère pas cette session"@,
        NoticeId::SystemctlRejected => "systemctl --user {} a échoué : {}"@,
        NoticeId::OriginProfile => "Profil « {} » appliqué"@,
        NoticeId::OriginRecalled => "Disposition précédente de ces écrans restaurée"@,
        NoticeId::OriginArranged => "Aucune disposition connue : écrans alignés de gauche à droite"@,
        NoticeId::OriginUnchanged => "Aucune disposition connue : écrans laissés en l'état"@,
        NoticeId::NotifyConnected => "branché : {}"@,
        NoticeId::NotifyDisconnected => "débranché : {}"@,
        NoticeId::NotifyChanged => "écrans modifiés"@,
        NoticeId::NotifyStartup => "hyprdmc démarré"@,
        NoticeId::NotifyFailed => "les écrans n'ont pas pu être configurés"@,
        NoticeId::NotifyManual => "la configuration automatique est désactivée"@,
        NoticeId::NoHistoryEntry => "aucune entrée d'historique en position {}"@,
        NoticeId::OutOfRange => "la disposition dépasse les coordonnées qu'un compositeur accepte"@,
        NoticeId::InvalidOnOff => "valeur invalide « {} » (attendu on ou off)"@,
        NoticeId::UnknownConnector => "sortie inconnue : {} (connues : {})"@,
        NoticeId::TriplesExpected => "triplets sortie, relation, référence attendus, {} mots reçus"@,
        NoticeId::CompositorConfigured => "compositeur : {} (configuré)"@,
        NoticeId::CompositorDetected => "compositeur : {} (détecté)"@,
        NoticeId::NotABundle => "ce fichier n'est pas une configuration hyprdmc exportée"@,
        NoticeId::BundleTooNew => "cette configuration est en version {}, seules les versions jusqu'à {} peuvent être lues"@,
    }
}

fn english_wording(id: NoticeId) -> (r: &'static str)
    ensures
        r@ == english(id),
{
    match id {
        NoticeId::InvalidRotation => "invalid rotation: {} (expected 0, 90, 180 or 270)",
        NoticeId::InvalidTransform => "invalid transform: {} (expected 0 to 7)",
        NoticeId::InvalidRefresh => "invalid refresh rate in \"{}\"",
        NoticeId::InvalidMode => "invalid mode \"{}\" (expected WxH or WxH@Hz)",
        NoticeId::InvalidWidth => "invalid width in \"{}\"",
        NoticeId::InvalidHeight => "invalid height in \"{}\"",
        NoticeId::DuplicateOutput => "output {} is defined {} times",
        NoticeId::InvalidScale => "{}: invalid scale {}",
        NoticeId::NonIntegralScale => "{}: scale {} gives a non-integral logical size ({} x {}), use {}",
        NoticeId::MirrorMissing => "{} mirrors {}, which does not exist",
        NoticeId::MirrorDisabled => "{} mirrors {}, which is disabled",
        NoticeId::Overlap => "{} and {} overlap",
        NoticeId::Unreachable => "{} touches no other display: the pointer cannot reach it",
        NoticeId::AllDisabled => "every display would be disabled",
        NoticeId::PrimaryUnusable => "the main screen {} is missing, disabled or mirroring: the layout is anchored at its top-left corner",
        NoticeId::UnknownAnchor => "unknown reference display {}",
        NoticeId::UnknownOutput => "unknown display {}",
        NoticeId::SelfReference => "{} cannot be placed relative to itself",
        NoticeId::UnknownRelation => "unknown relation \"{}\" (expected left-of, right-of, above, below or same-as)",
        NoticeId::LayoutRequired => "a keyboard layout is required",
        NoticeId::Rejected => "the compositor rejected the change: {} (sent: {})",
        NoticeId::UnreadableOption => "could not read the option {}",
        NoticeId::StaleSignature => "no Hyprland instance for the signature {}: {} does not exist",
        NoticeId::NotRunning => "Hyprland does not seem to be running: {} cannot be read",
        NoticeId::NoInstance => "no Hyprland instance in {}",
        NoticeId::ManyInstances => "{} Hyprland instances in {}: set HYPRLAND_INSTANCE_SIGNATURE",
        NoticeId::SwayNotRunning => "sway does not seem to be running: neither SWAYSOCK nor I3SOCK is set",
        NoticeId::SwayBadFrame => "sway sent something that is not an IPC message",
        NoticeId::SwayParseError => "sway could not parse the command",
        NoticeId::SwayUnknownError => "sway gave no reason",
        NoticeId::SwaySubscribeFailed => "sway refused the subscription to its events",
        NoticeId::UnexpectedResponse => "unexpected response: {}",
        NoticeId::UnknownCompositor => "unknown compositor \"{}\" (known: {})",
        NoticeId::EmitHeader => "Generated by hyprdmc — DO NOT EDIT BY HAND.",
        NoticeId::EmitInputHeader => "Generated by hyprdmc — DO NOT EDIT BY HAND.\nKeyboard and pointer only: the screens live in the monitor file.",
        NoticeId::PrimaryComment => "main screen: {}",
        NoticeId::AdoptedComment => "hyprdmc: moved to {}",
        NoticeId::Vanished => "{} has disappeared",
        NoticeId::EnabledButDisabled => "{} should be enabled but is disabled",
        NoticeId::DisabledButEnabled => "{} should be disabled but is enabled",
        NoticeId::ModeRefused => "{}: mode refused, wanted {} and got {}",
        NoticeId::RefreshAdjusted => "{}: refresh rate adjusted from {} Hz to {} Hz",
        NoticeId::PositionRefused => "{}: position refused, wanted {} and got {}",
        NoticeId::TransformRefused => "{}: orientation refused, wanted {} and got {}",
        NoticeId::ScaleAdjusted => "{}: scale adjusted from {} to {}",
        NoticeId::MirrorMismatch => "{}: mirroring differs, wanted {} and got {}",
        NoticeId::NoLiveApply => "{} cannot be reconfigured while it is running: only the file {} can be written",
        NoticeId::ApplyRejected => "layout rejected:\n{}",
        NoticeId::InvalidPosition => "invalid position \"{}\" (expected XxY, for example 1920x0)",
        NoticeId::InvalidAbscissa => "invalid x coordinate in \"{}\"",
        NoticeId::InvalidOrdinate => "invalid y coordinate in \"{}\"",
        NoticeId::ProfileMismatch => "profile \"{}\" does not match the connected displays",
        NoticeId::UnknownProfile => "unknown profile \"{}\"",
        NoticeId::JustNow => "just now",
        NoticeId::MinutesAgo => "{} min ago",
        NoticeId::HoursAgo => "{} h ago",
        NoticeId::DaysAgo => "{} d ago",
        NoticeId::NoDisplay => "no graphical session (neither WAYLAND_DISPLAY nor DISPLAY is set)",
        NoticeId::ServiceGenerated => "Generated by hyprdmc service install.",
        NoticeId::RelativeExecutable => "the path of the executable is not absolute: {}",
        NoticeId::NoSystemd => "systemd is not running this session",
        NoticeId::SystemctlRejected => "systemctl --user {} failed: {}",
        NoticeId::OriginProfile => "Profile \"{}\" applied",
        NoticeId::OriginRecalled => "Restored the layout you last used with these displays",
        NoticeId::OriginArranged => "No known layout: displays arranged left to right",
        NoticeId::OriginUnchanged => "No known layout: displays left as they are",
        NoticeId::NotifyConnected => "connected: {}",
        NoticeId::NotifyDisconnected => "disconnected: {}",
        NoticeId::NotifyChanged => "displays changed",
        NoticeId::NotifyStartup => "hyprdmc started",
        NoticeId::NotifyFailed => "the displays could not be configured",
        NoticeId::NotifyManual => "automatic configuration is off",
        NoticeId::NoHistoryEntry => "no history entry at position {}",
        NoticeId::OutOfRange => "the layout does not fit into the coordinates that a compositor takes",
        NoticeId::InvalidOnOff => "invalid value \"{}\" (expected on or off)",
        NoticeId::UnknownConnector => "unknown output {} (known: {})",
        NoticeId::TriplesExpected => "expected triples of output, relation and reference, got {} words",
        NoticeId::CompositorConfigured => "compositor: {} (configured)",
        NoticeId::CompositorDetected => "compositor: {} (detected)",
        NoticeId::NotABundle => "this file is not an exported hyprdmc configuration",
        NoticeId::BundleTooNew => "this configuration has version {}, and only versions up to {} can be read",
    }
}

fn french_wording(id: NoticeId) -> (r: &'static str)
    ensures
        r@ == french(id),
{
    match id {
        NoticeId::InvalidRotation => "rotation invalide : {} (attendu 0, 90, 180 ou 270)",
        NoticeId::InvalidTransform => "transformation invalide : {} (attendu 0 à 7)",
        NoticeId::InvalidRefresh => "fréquence invalide dans « {} »",
        NoticeId::InvalidMode => "mode invalide « {} » (attendu LxH ou LxH@Hz)",
        NoticeId::InvalidWidth => "largeur invalide dans « {} »",
        NoticeId::InvalidHeight => "hauteur invalide dans « {} »",
        NoticeId::DuplicateOutput => "la sortie {} est définie {} fois",
        NoticeId::InvalidScale => "{} : échelle invalide {}",
        NoticeId::NonIntegralScale => "{} : l'échelle {} donne une taille logique non entière ({} x {}), utilisez {}",
        NoticeId::MirrorMissing => "{} recopie {}, qui n'existe pas",
        NoticeId::MirrorDisabled => "{} recopie {}, qui est désactivée",
        NoticeId::Overlap => "{} et {} se chevauchent",
        NoticeId::Unreachable => "{} ne touche aucun autre écran : le pointeur ne peut pas l'atteindre",
        NoticeId::AllDisabled => "tous les écrans seraient désactivés",
        NoticeId::PrimaryUnusable => "l'écran principal {} est absent, désactivé ou en recopie : la disposition part de son coin supérieur gauche",
        NoticeId::UnknownAnchor => "écran de référence inconnu : {}",
        NoticeId::UnknownOutput => "écran inconnu : {}",
        NoticeId::SelfReference => "{} ne peut pas être placé par rapport à lui-même",
        NoticeId::UnknownRelation => "relation inconnue « {} » (attendu gauche-de, droite-de, au-dessus-de, en-dessous-de ou same-as)",
        NoticeId::LayoutRequired => "une disposition de clavier est requise",
        NoticeId::Rejected => "le compositeur a refusé le changement : {} (envoyé : {})",
        NoticeId::UnreadableOption => "impossible de lire l'option {}",
        NoticeId::StaleSignature => "aucune instance Hyprland pour la signature {} : {} n'existe pas",
        NoticeId::NotRunning => "Hyprland ne semble pas lancé : {} est illisible",
        NoticeId::NoInstance => "aucune instance Hyprland dans {}",
        NoticeId::ManyInstances => "{} instances Hyprland dans {} : définissez HYPRLAND_INSTANCE_SIGNATURE",
        NoticeId::SwayNotRunning => "sway ne semble pas lancé : ni SWAYSOCK ni I3SOCK n'est défini",
        NoticeId::SwayBadFrame => "sway a envoyé autre chose qu'un message IPC",
        NoticeId::SwayParseError => "sway n'a pas compris la commande",
        NoticeId::SwayUnknownError => "sway n'a donné aucune raison",
        NoticeId::SwaySubscribeFailed => "sway a refusé l'abonnement à ses événements",
        NoticeId::UnexpectedResponse => "réponse inattendue : {}",
        NoticeId::UnknownCompositor => "compositeur inconnu « {} » (connus : {})",
        NoticeId::EmitHeader => "Généré par hyprdmc — NE PAS MODIFIER À LA MAIN.",
        NoticeId::EmitInputHeader => "Généré par hyprdmc — NE PAS MODIFIER À LA MAIN.\nClavier et pointeur seulement : les écrans sont dans le fichier des moniteurs.",
        NoticeId::PrimaryComment => "écran principal : {}",
        NoticeId::AdoptedComment => "hyprdmc : déplacé dans {}",
        NoticeId::Vanished => "{} a disparu",
        NoticeId::EnabledButDisabled => "{} devrait être activée mais est désactivée",
        NoticeId::DisabledButEnabled => "{} devrait être désactivée mais est activée",
        NoticeId::ModeRefused => "{} : mode refusé, demandé {} et obtenu {}",
        NoticeId::RefreshAdjusted => "{} : fréquence ajustée de {} Hz à {} Hz",
        NoticeId::PositionRefused => "{} : position refusée, demandé {} et obtenu {}",
        NoticeId::TransformRefused => "{} : orientation refusée, demandé {} et obtenu {}",
        NoticeId::ScaleAdjusted => "{} : échelle ajustée de {} à {}",
        NoticeId::MirrorMismatch => "{} : recopie différente, demandé {} et obtenu {}",
        NoticeId::NoLiveApply => "{} ne peut pas être reconfiguré à chaud : seul le fichier {} peut être écrit",
        NoticeId::ApplyRejected => "disposition refusée :\n{}",
        NoticeId::InvalidPosition => "position invalide « {} » (attendu XxY, par exemple 1920x0)",
        NoticeId::InvalidAbscissa => "abscisse invalide dans « {} »",
        NoticeId::InvalidOrdinate => "ordonnée invalide dans « {} »",
        NoticeId::ProfileMismatch => "le profil « {} » ne correspond pas aux écrans branchés",
        NoticeId::UnknownProfile => "profil « {} » inconnu",
        NoticeId::JustNow => "à l'instant",
        NoticeId::MinutesAgo => "il y a {} min",
        NoticeId::HoursAgo => "il y a {} h",
        NoticeId::DaysAgo => "il y a {} j",
        NoticeId::NoDisplay => "aucune session graphique (ni WAYLAND_DISPLAY ni DISPLAY n'est défini)",
        NoticeId::ServiceGenerated => "Généré par hyprdmc service install.",
        NoticeId::RelativeExecutable => "le chemin de l'exécutable n'est pas absolu : {}",
        NoticeId::NoSystemd => "systemd ne gère pas cette session",
        NoticeId::SystemctlRejected => "systemctl --user {} a échoué : {}",
        NoticeId::OriginProfile => "Profil « {} » appliqué",
        NoticeId::OriginRecalled => "Disposition précédente de ces écrans restaurée",
        NoticeId::OriginArranged => "Aucune disposition connue : écrans alignés de gauche à droite",
        NoticeId::OriginUnchanged => "Aucune disposition connue : écrans laissés en l'état",
        NoticeId::NotifyConnected => "branché : {}",
        NoticeId::NotifyDisconnected => "débranché : {}",
        NoticeId::NotifyChanged => "écrans modifiés",
        NoticeId::NotifyStartup => "hyprdmc démarré",
        NoticeId::NotifyFailed => "les écrans n'ont pas pu être configurés",
        NoticeId::NotifyManual => "la configuration automatique est désactivée",
        NoticeId::NoHistoryEntry => "aucune entrée d'historique en position {}",
        NoticeId::OutOfRange => "la disposition dépasse les coordonnées qu'un compositeur accepte",
        NoticeId::InvalidOnOff => "valeur invalide « {} » (attendu on ou off)",
        NoticeId::UnknownConnector => "sortie inconnue : {} (connues : {})",
        NoticeId::TriplesExpected => "triplets sortie, relation, référence attendus, {} mots reçus",
        NoticeId::CompositorConfigured => "compositeur : {} (configuré)",
        NoticeId::CompositorDetected => "compositeur : {} (détecté)",
        NoticeId::NotABundle => "ce fichier n'est pas une configuration hyprdmc exportée",
        NoticeId::BundleTooNew => "cette configuration est en version {}, seules les versions jusqu'à {} peuvent être lues",
    }
}

/// An orientation in words.
pub fn turn_string(t: Transform, locale: Locale) -> (r: String)
    ensures
        r@ == turn_text(t, locale),
{
    let mut s = nat_string(t.rotation.degrees() as u128);
    s.append("°");
    if t.flipped {
        match locale {
            Locale::En => s.append(" flipped"),
            Locale::Fr => s.append(" retourné"),
        }
    }
    s
}

impl Arg {
    fn text(&self, locale: Locale) -> (r: String)
        ensures
            r@ == arg_text(self@, locale),
    {
        match self {
            Arg::Text(s) => s.clone(),
            Arg::Turn(t) => turn_string(*t, locale),
            Arg::Nothing => match locale {
                Locale::En => "none".to_owned(),
                Locale::Fr => "aucun".to_owned(),
            },
        }
    }
}

impl Notice {
    /// The notice that mentions nothing.
    pub fn plain(id: NoticeId) -> (r: Self)
        ensures
            r@ == note(id, seq![]),
    {
        let r = Notice { id, args: Vec::new() };
        assert(r@ =~= note(id, seq![]));
        r
    }

    /// The notice that mentions one text.
    pub fn one(id: NoticeId, a: &str) -> (r: Self)
        ensures
            r@ == note(id, seq![a@]),
    {
        let mut args: Vec<Arg> = Vec::new();
        args.push(Arg::Text(a.to_owned()));
        let r = Notice { id, args };
        assert(r@.args =~= note(id, seq![a@]).args);
        r
    }

    /// The notice that mentions two texts.
    pub fn two(id: NoticeId, a: &str, b: &str) -> (r: Self)
        ensures
            r@ == note(id, seq![a@, b@]),
    {
        let r = Notice::one(id, a).with(b);
        assert(r@.args =~= note(id, seq![a@, b@]).args);
        r
    }

    /// The notice that mentions three texts.
    pub fn three(id: NoticeId, a: &str, b: &str, c: &str) -> (r: Self)
        ensures
            r@ == note(id, seq![a@, b@, c@]),
    {
        let r = Notice::two(id, a, b).with(c);
        assert(r@.args =~= note(id, seq![a@, b@, c@]).args);
        r
    }

    /// This notice with one more text.
    pub fn with(self, a: &str) -> (r: Self)
        ensures
            r@ == (NoticeView { id: self@.id, args: self@.args.push(ArgView::Text(a@)) }),
    {
        let mut r = self;
        r.args.push(Arg::Text(a.to_owned()));
        assert(r@.args =~= self@.args.push(ArgView::Text(a@)));
        r
    }

    /// A copy of the notice.
    pub fn copy(&self) -> (r: Self)
        ensures
            r@ == self@,
    {
        let mut args: Vec<Arg> = Vec::new();
        let mut i: usize = 0;
        while i < self.args.len()
            invariant
                i <= self.args@.len(),
                arg_views(args@) == self@.args.take(i as int),
            decreases self.args@.len() - i,
        {
            let a = match &self.args[i] {
                Arg::Text(s) => Arg::Text(s.clone()),
                Arg::Turn(t) => Arg::Turn(*t),
                Arg::Nothing => Arg::Nothing,
            };
            let ghost before = arg_views(args@);
            let ghost shown = a@;
            args.push(a);
            i = i + 1;
            assert(arg_views(args@) =~= before.push(shown));
            assert(arg_views(args@) =~= self@.args.take(i as int));
        }
        assert(arg_views(args@) =~= self@.args);
        Notice { id: self.id, args }
    }

    /// What the notice says in a language.
    pub fn text(&self, locale: Locale) -> (r: String)
        ensures
            r@ == self@.said(locale),
    {
        proof {
            reveal_strlit("{}");
        }
        let wording: &'static str = match locale {
            Locale::En => english_wording(self.id),
            Locale::Fr => french_wording(self.id),
        };
        let parts = pieces(wording, "{}");
        let ghost all = views(parts@);
        let mut s = String::new();
        let mut i: usize = 0;
        while i < parts.len()
            invariant
                i <= parts@.len(),
                all == views(parts@),
                s@ == fill(all.take(i as int), self@.args, locale),
            decreases parts@.len() - i,
        {
            assert(all.take(i + 1).drop_last() =~= all.take(i as int));
            if i > 0 && i - 1 < self.args.len() {
                s.append(self.args[i - 1].text(locale).as_str());
            }
            s.append(parts[i].as_str());
            i = i + 1;
            assert(s@ =~= fill(all.take(i as int), self@.args, locale));
        }
        assert(all.take(parts@.len() as int) =~= all);
        s
    }
}

} // verus!
