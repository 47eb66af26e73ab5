use vstd::prelude::*;

verus! {

/// Value types that attribute keys declare.
#[derive(Clone, Copy, Debug, PartialEq, Eq, Structural)]
pub enum AttribType {
    Int,
    Float,
    Bool,
    Array,
    Hsv,
    Text,
}

/// A typed attribute value. Decimal values (`Float`, and the three
/// components of `Hsv`) are held in millionths.
#[derive(Clone, Debug)]
pub enum AttribValue {
    Int(i32),
    Float(i64),
    Bool(bool),
    Array(Vec<i32>),
    Hsv { h: i64, s: i64, v: i64, s_checked: bool, v_checked: bool },
    Text(String),
}

impl AttribValue {
    pub open spec fn spec_type(&self) -> AttribType {
        match self {
            AttribValue::Int(_) => AttribType::Int,
            AttribValue::Float(_) => AttribType::Float,
            AttribValue::Bool(_) => AttribType::Bool,
            AttribValue::Array(_) => AttribType::Array,
            AttribValue::Hsv { .. } => AttribType::Hsv,
            AttribValue::Text(_) => AttribType::Text,
        }
    }

    pub fn get_type(&self) -> (r: AttribType)
        ensures
            r == self.spec_type(),
    {
        match self {
            AttribValue::Int(_) => AttribType::Int,
            AttribValue::Float(_) => AttribType::Float,
            AttribValue::Bool(_) => AttribType::Bool,
            AttribValue::Array(_) => AttribType::Array,
            AttribValue::Hsv { .. } => AttribType::Hsv,
            AttribValue::Text(_) => AttribType::Text,
        }
    }
}

/// Attribute keys of a level object.
#[derive(Clone, Copy, Debug, PartialEq, Eq, Hash, Structural)]
pub enum AttribKey {
    ObjID,
    XPos,
    YPos,
    FlipH,
    FlipV,
    Rotation,
    Red,
    Green,
    Blue,
    Duration,
    TouchTriggered,
    SecretCoinID,
    SpecialCheck,
    TintGround,
    PlayerCol1,
    PlayerCol2,
    Blending,
    EditorLayer1,
    MainColorChannelID,
    SecondColorChannelID,
    TargetColorID,
    ZLayer,
    ZOrder,
    MoveOffsetX,
    MoveOffsetY,
    Easing,
    Text,
    Scale,
    IsGroupParent,
    Opacity,
    MainHSVEnabled,
    SecondHSVEnabled,
    MainColorHSV,
    SecondColorHSV,
    FadeInPulse,
    HoldPulse,
    FadeOutPulse,
    PulseMode,
    CopiedColorHSV,
    CopiedColorID,
    TargetGroupID,
    PulseTargetType,
    TeleportOffset,
    TeleportEase,
    ActivateGroup,
    GroupIDs,
    LockToPlayerX,
    LockToPlayerY,
    CopyOpacity,
    EditorLayer2,
    SpawnTriggered,
    SpawnDelay,
    DontFade,
    MainOnlyPulse,
    DetailOnlyPulse,
    DontEnter,
    RotateDegrees,
    RotateTimes360,
    LockObjectRotation,
    SecondaryGroupID,
    FollowXMod,
    FollowYMod,
    ShakeStrength,
    AnimationID,
    Count,
    SubtractCount,
    PickupMode,
    ItemID,
    TouchHoldMode,
    TouchToggleMode,
    ShakeInterval,
    EasingRate,
    ExclusivePulse,
    MultiTrigger,
    InstantCountComparison,
    TouchDualMode,
    FollowPlayerYSpeed,
    FollowYDelay,
    FollowYOffset,
    TriggerOnExit,
    IsDynamic,
    BlockBID,
    DisableGlow,
    CustomRotationSpeed,
    DisableRotation,
    MultiActivateOrb,
    EnableUseTarget,
    TargetPosCoordinates,
    EditorDisable,
    HighDetail,
    MultiActivateTrigger,
    MaxSpeedFollowY,
    RandomizeStartAnimation,
    AnimationSpeed,
    LinkedGroupID,
}

impl AttribKey {
    /// Numeric id of the key in the text form.
    pub open spec fn spec_id(self) -> u16 {
        match self {
            AttribKey::ObjID => 1,
            AttribKey::XPos => 2,
            AttribKey::YPos => 3,
            AttribKey::FlipH => 4,
            AttribKey::FlipV => 5,
            AttribKey::Rotation => 6,
            AttribKey::Red => 7,
            AttribKey::Green => 8,
            AttribKey::Blue => 9,
            AttribKey::Duration => 10,
            AttribKey::TouchTriggered => 11,
            AttribKey::SecretCoinID => 12,
            AttribKey::SpecialCheck => 13,
            AttribKey::TintGround => 14,
            AttribKey::PlayerCol1 => 15,
            AttribKey::PlayerCol2 => 16,
            AttribKey::Blending => 17,
            AttribKey::EditorLayer1 => 20,
            AttribKey::MainColorChannelID => 21,
            AttribKey::SecondColorChannelID => 22,
            AttribKey::TargetColorID => 23,
            AttribKey::ZLayer => 24,
            AttribKey::ZOrder => 25,
            AttribKey::MoveOffsetX => 28,
            AttribKey::MoveOffsetY => 29,
            AttribKey::Easing => 30,
            AttribKey::Text => 31,
            AttribKey::Scale => 32,
            AttribKey::IsGroupParent => 34,
            AttribKey::Opacity => 35,
            AttribKey::MainHSVEnabled => 41,
            AttribKey::SecondHSVEnabled => 42,
            AttribKey::MainColorHSV => 43,
            AttribKey::SecondColorHSV => 44,
            AttribKey::FadeInPulse => 45,
            AttribKey::HoldPulse => 46,
            AttribKey::FadeOutPulse => 47,
            AttribKey::PulseMode => 48,
            AttribKey::CopiedColorHSV => 49,
            AttribKey::CopiedColorID => 50,
            AttribKey::TargetGroupID => 51,
            AttribKey::PulseTargetType => 52,
            AttribKey::TeleportOffset => 54,
            AttribKey::TeleportEase => 55,
            AttribKey::ActivateGroup => 56,
            AttribKey::GroupIDs => 57,
            AttribKey::LockToPlayerX => 58,
            AttribKey::LockToPlayerY => 59,
            AttribKey::CopyOpacity => 60,
            AttribKey::EditorLayer2 => 61,
            AttribKey::SpawnTriggered => 62,
            AttribKey::SpawnDelay => 63,
            AttribKey::DontFade => 64,
            AttribKey::MainOnlyPulse => 65,
            AttribKey::DetailOnlyPulse => 66,
            AttribKey::DontEnter => 67,
            AttribKey::RotateDegrees => 68,
            AttribKey::RotateTimes360 => 69,
            AttribKey::LockObjectRotation => 70,
            AttribKey::SecondaryGroupID => 71,
            AttribKey::FollowXMod => 72,
            AttribKey::FollowYMod => 73,
            AttribKey::ShakeStrength => 75,
            AttribKey::AnimationID => 76,
            AttribKey::Count => 77,
            AttribKey::SubtractCount => 78,
            AttribKey::PickupMode => 79,
            AttribKey::ItemID => 80,
            AttribKey::TouchHoldMode => 81,
            AttribKey::TouchToggleMode => 82,
            AttribKey::ShakeInterval => 84,
            AttribKey::EasingRate => 85,
            AttribKey::ExclusivePulse => 86,
            AttribKey::MultiTrigger => 87,
            AttribKey::InstantCountComparison => 88,
            AttribKey::TouchDualMode => 89,
            AttribKey::FollowPlayerYSpeed => 90,
            AttribKey::FollowYDelay => 91,
            AttribKey::FollowYOffset => 92,
            AttribKey::TriggerOnExit => 93,
            AttribKey::IsDynamic => 94,
            AttribKey::BlockBID => 95,
            AttribKey::DisableGlow => 96,
            AttribKey::CustomRotationSpeed => 97,
            AttribKey::DisableRotation => 98,
            AttribKey::MultiActivateOrb => 99,
            AttribKey::EnableUseTarget => 100,
            AttribKey::TargetPosCoordinates => 101,
            AttribKey::EditorDisable => 102,
            AttribKey::HighDetail => 103,
            AttribKey::MultiActivateTrigger => 104,
            AttribKey::MaxSpeedFollowY => 105,
            AttribKey::RandomizeStartAnimation => 106,
            AttribKey::AnimationSpeed => 107,
            AttribKey::LinkedGroupID => 108,
        }
    }

    #[verifier::when_used_as_spec(spec_id)]
    pub fn id(self) -> (r: u16)
        ensures
            r == self.spec_id(),
    {
        match self {
            AttribKey::ObjID => 1,
            AttribKey::XPos => 2,
            AttribKey::YPos => 3,
            AttribKey::FlipH => 4,
            AttribKey::FlipV => 5,
            AttribKey::Rotation => 6,
            AttribKey::Red => 7,
            AttribKey::Green => 8,
            AttribKey::Blue => 9,
            AttribKey::Duration => 10,
            AttribKey::TouchTriggered => 11,
            AttribKey::SecretCoinID => 12,
            AttribKey::SpecialCheck => 13,
            AttribKey::TintGround => 14,
            AttribKey::PlayerCol1 => 15,
            AttribKey::PlayerCol2 => 16,
            AttribKey::Blending => 17,
            AttribKey::EditorLayer1 => 20,
            AttribKey::MainColorChannelID => 21,
            AttribKey::SecondColorChannelID => 22,
            AttribKey::TargetColorID => 23,
            AttribKey::ZLayer => 24,
            AttribKey::ZOrder => 25,
            AttribKey::MoveOffsetX => 28,
            AttribKey::MoveOffsetY => 29,
            AttribKey::Easing => 30,
            AttribKey::Text => 31,
            AttribKey::Scale => 32,
            AttribKey::IsGroupParent => 34,
            AttribKey::Opacity => 35,
            AttribKey::MainHSVEnabled => 41,
            AttribKey::SecondHSVEnabled => 42,
            AttribKey::MainColorHSV => 43,
            AttribKey::SecondColorHSV => 44,
            AttribKey::FadeInPulse => 45,
            AttribKey::HoldPulse => 46,
            AttribKey::FadeOutPulse => 47,
            AttribKey::PulseMode => 48,
            AttribKey::CopiedColorHSV => 49,
            AttribKey::CopiedColorID => 50,
            AttribKey::TargetGroupID => 51,
            AttribKey::PulseTargetType => 52,
            AttribKey::TeleportOffset => 54,
            AttribKey::TeleportEase => 55,
            AttribKey::ActivateGroup => 56,
            AttribKey::GroupIDs => 57,
            AttribKey::LockToPlayerX => 58,
            AttribKey::LockToPlayerY => 59,
            AttribKey::CopyOpacity => 60,
            AttribKey::EditorLayer2 => 61,
            AttribKey::SpawnTriggered => 62,
            AttribKey::SpawnDelay => 63,
            AttribKey::DontFade => 64,
            AttribKey::MainOnlyPulse => 65,
            AttribKey::DetailOnlyPulse => 66,
            AttribKey::DontEnter => 67,
            AttribKey::RotateDegrees => 68,
            AttribKey::RotateTimes360 => 69,
            AttribKey::LockObjectRotation => 70,
            AttribKey::SecondaryGroupID => 71,
            AttribKey::FollowXMod => 72,
            AttribKey::FollowYMod => 73,
            AttribKey::ShakeStrength => 75,
            AttribKey::AnimationID => 76,
            AttribKey::Count => 77,
            AttribKey::SubtractCount => 78,
            AttribKey::PickupMode => 79,
            AttribKey::ItemID => 80,
            AttribKey::TouchHoldMode => 81,
            AttribKey::TouchToggleMode => 82,
            AttribKey::ShakeInterval => 84,
            AttribKey::EasingRate => 85,
            AttribKey::ExclusivePulse => 86,
            AttribKey::MultiTrigger => 87,
            AttribKey::InstantCountComparison => 88,
            AttribKey::TouchDualMode => 89,
            AttribKey::FollowPlayerYSpeed => 90,
            AttribKey::FollowYDelay => 91,
            AttribKey::FollowYOffset => 92,
            AttribKey::TriggerOnExit => 93,
            AttribKey::IsDynamic => 94,
            AttribKey::BlockBID => 95,
            AttribKey::DisableGlow => 96,
            AttribKey::CustomRotationSpeed => 97,
            AttribKey::DisableRotation => 98,
            AttribKey::MultiActivateOrb => 99,
            AttribKey::EnableUseTarget => 100,
            AttribKey::TargetPosCoordinates => 101,
            AttribKey::EditorDisable => 102,
            AttribKey::HighDetail => 103,
            AttribKey::MultiActivateTrigger => 104,
            AttribKey::MaxSpeedFollowY => 105,
            AttribKey::RandomizeStartAnimation => 106,
            AttribKey::AnimationSpeed => 107,
            AttribKey::LinkedGroupID => 108,
        }
    }

    /// Declared value type of the key.
    pub open spec fn spec_type(self) -> AttribType {
        match self {
            AttribKey::ObjID => AttribType::Int,
            AttribKey::XPos => AttribType::Float,
            AttribKey::YPos => AttribType::Float,
            AttribKey::FlipH => AttribType::Bool,
            AttribKey::FlipV => AttribType::Bool,
            AttribKey::Rotation => AttribType::Float,
            AttribKey::Red => AttribType::Int,
            AttribKey::Green => AttribType::Int,
            AttribKey::Blue => AttribType::Int,
            AttribKey::Duration => AttribType::Float,
            AttribKey::TouchTriggered => AttribType::Bool,
            AttribKey::SecretCoinID => AttribType::Int,
            AttribKey::SpecialCheck => AttribType::Bool,
            AttribKey::TintGround => AttribType::Bool,
            AttribKey::PlayerCol1 => AttribType::Bool,
            AttribKey::PlayerCol2 => AttribType::Bool,
            AttribKey::Blending => AttribType::Bool,
            AttribKey::EditorLayer1 => AttribType::Int,
            AttribKey::MainColorChannelID => AttribType::Int,
            AttribKey::SecondColorChannelID => AttribType::Int,
            AttribKey::TargetColorID => AttribType::Int,
            AttribKey::ZLayer => AttribType::Int,
            AttribKey::ZOrder => AttribType::Int,
            AttribKey::MoveOffsetX => AttribType::Int,
            AttribKey::MoveOffsetY => AttribType::Int,
            AttribKey::Easing => AttribType::Int,
            AttribKey::Text => AttribType::Text,
            AttribKey::Scale => AttribType::Float,
            AttribKey::IsGroupParent => AttribType::Bool,
            AttribKey::Opacity => AttribType::Float,
            AttribKey::MainHSVEnabled => AttribType::Bool,
            AttribKey::SecondHSVEnabled => AttribType::Bool,
            AttribKey::MainColorHSV => AttribType::Hsv,
            AttribKey::SecondColorHSV => AttribType::Hsv,
            AttribKey::FadeInPulse => AttribType::Float,
            AttribKey::HoldPulse => AttribType::Float,
            AttribKey::FadeOutPulse => AttribType::Float,
            AttribKey::PulseMode => AttribType::Int,
            AttribKey::CopiedColorHSV => AttribType::Hsv,
            AttribKey::CopiedColorID => AttribType::Int,
            AttribKey::TargetGroupID => AttribType::Int,
            AttribKey::PulseTargetType => AttribType::Int,
            AttribKey::TeleportOffset => AttribType::Float,
            AttribKey::TeleportEase => AttribType::Bool,
            AttribKey::ActivateGroup => AttribType::Bool,
            AttribKey::GroupIDs => AttribType::Array,
            AttribKey::LockToPlayerX => AttribType::Bool,
            AttribKey::LockToPlayerY => AttribType::Bool,
            AttribKey::CopyOpacity => AttribType::Bool,
            AttribKey::EditorLayer2 => AttribType::Int,
            AttribKey::SpawnTriggered => AttribType::Bool,
            AttribKey::SpawnDelay => AttribType::Float,
            AttribKey::DontFade => AttribType::Bool,
            AttribKey::MainOnlyPulse => AttribType::Bool,
            AttribKey::DetailOnlyPulse => AttribType::Bool,
            AttribKey::DontEnter => AttribType::Bool,
            AttribKey::RotateDegrees => AttribType::Int,
            AttribKey::RotateTimes360 => AttribType::Int,
            AttribKey::LockObjectRotation => AttribType::Bool,
            AttribKey::SecondaryGroupID => AttribType::Int,
            AttribKey::FollowXMod => AttribType::Float,
            AttribKey::FollowYMod => AttribType::Float,
            AttribKey::ShakeStrength => AttribType::Float,
            AttribKey::AnimationID => AttribType::Int,
            AttribKey::Count => AttribType::Int,
            AttribKey::SubtractCount => AttribType::Bool,
            AttribKey::PickupMode => AttribType::Int,
            AttribKey::ItemID => AttribType::Int,
            AttribKey::TouchHoldMode => AttribType::Bool,
            AttribKey::TouchToggleMode => AttribType::Bool,
            AttribKey::ShakeInterval => AttribType::Float,
            AttribKey::EasingRate => AttribType::Float,
            AttribKey::ExclusivePulse => AttribType::Bool,
            AttribKey::MultiTrigger => AttribType::Bool,
            AttribKey::InstantCountComparison => AttribType::Int,
            AttribKey::TouchDualMode => AttribType::Bool,
            AttribKey::FollowPlayerYSpeed => AttribType::Float,
            AttribKey::FollowYDelay => AttribType::Float,
            AttribKey::FollowYOffset => AttribType::Float,
            AttribKey::TriggerOnExit => AttribType::Bool,
            AttribKey::IsDynamic => AttribType::Bool,
            AttribKey::BlockBID => AttribType::Int,
            AttribKey::DisableGlow => AttribType::Bool,
            AttribKey::CustomRotationSpeed => AttribType::Float,
            AttribKey::DisableRotation => AttribType::Bool,
            AttribKey::MultiActivateOrb => AttribType::Bool,
            AttribKey::EnableUseTarget => AttribType::Bool,
            AttribKey::TargetPosCoordinates => AttribType::Int,
            AttribKey::EditorDisable => AttribType::Bool,
            AttribKey::HighDetail => AttribType::Bool,
            AttribKey::MultiActivateTrigger => AttribType::Bool,
            AttribKey::MaxSpeedFollowY => AttribType::Float,
            AttribKey::RandomizeStartAnimation => AttribType::Bool,
            AttribKey::AnimationSpeed => AttribType::Float,
            AttribKey::LinkedGroupID => AttribType::Int,
        }
    }

    pub fn get_type(&self) -> (r: AttribType)
        ensures
            r == self.spec_type(),
    {
        match self {
            AttribKey::ObjID => AttribType::Int,
            AttribKey::XPos => AttribType::Float,
            AttribKey::YPos => AttribType::Float,
            AttribKey::FlipH => AttribType::Bool,
            AttribKey::FlipV => AttribType::Bool,
            AttribKey::Rotation => AttribType::Float,
            AttribKey::Red => AttribType::Int,
            AttribKey::Green => AttribType::Int,
            AttribKey::Blue => AttribType::Int,
            AttribKey::Duration => AttribType::Float,
            AttribKey::TouchTriggered => AttribType::Bool,
            AttribKey::SecretCoinID => AttribType::Int,
            AttribKey::SpecialCheck => AttribType::Bool,
            AttribKey::TintGround => AttribType::Bool,
            AttribKey::PlayerCol1 => AttribType::Bool,
            AttribKey::PlayerCol2 => AttribType::Bool,
            AttribKey::Blending => AttribType::Bool,
            AttribKey::EditorLayer1 => AttribType::Int,
            AttribKey::MainColorChannelID => AttribType::Int,
            AttribKey::SecondColorChannelID => AttribType::Int,
            AttribKey::TargetColorID => AttribType::Int,
            AttribKey::ZLayer => AttribType::Int,
            AttribKey::ZOrder => AttribType::Int,
            AttribKey::MoveOffsetX => AttribType::Int,
            AttribKey::MoveOffsetY => AttribType::Int,
            AttribKey::Easing => AttribType::Int,
            AttribKey::Text => AttribType::Text,
            AttribKey::Scale => AttribType::Float,
            AttribKey::IsGroupParent => AttribType::Bool,
            AttribKey::Opacity => AttribType::Float,
            AttribKey::MainHSVEnabled => AttribType::Bool,
            AttribKey::SecondHSVEnabled => AttribType::Bool,
            AttribKey::MainColorHSV => AttribType::Hsv,
            AttribKey::SecondColorHSV => AttribType::Hsv,
            AttribKey::FadeInPulse => AttribType::Float,
            AttribKey::HoldPulse => AttribType::Float,
            AttribKey::FadeOutPulse => AttribType::Float,
            AttribKey::PulseMode => AttribType::Int,
            AttribKey::CopiedColorHSV => AttribType::Hsv,
            AttribKey::CopiedColorID => AttribType::Int,
            AttribKey::TargetGroupID => AttribType::Int,
            AttribKey::PulseTargetType => AttribType::Int,
            AttribKey::TeleportOffset => AttribType::Float,
            AttribKey::TeleportEase => AttribType::Bool,
            AttribKey::ActivateGroup => AttribType::Bool,
            AttribKey::GroupIDs => AttribType::Array,
            AttribKey::LockToPlayerX => AttribType::Bool,
            AttribKey::LockToPlayerY => AttribType::Bool,
            AttribKey::CopyOpacity => AttribType::Bool,
            AttribKey::EditorLayer2 => AttribType::Int,
            AttribKey::SpawnTriggered => AttribType::Bool,
            AttribKey::SpawnDelay => AttribType::Float,
            AttribKey::DontFade => AttribType::Bool,
            AttribKey::MainOnlyPulse => AttribType::Bool,
            AttribKey::DetailOnlyPulse => AttribType::Bool,
            AttribKey::DontEnter => AttribType::Bool,
            AttribKey::RotateDegrees => AttribType::Int,
            AttribKey::RotateTimes360 => AttribType::Int,
            AttribKey::LockObjectRotation => AttribType::Bool,
            AttribKey::SecondaryGroupID => AttribType::Int,
            AttribKey::FollowXMod => AttribType::Float,
            AttribKey::FollowYMod => AttribType::Float,
            AttribKey::ShakeStrength => AttribType::Float,
            AttribKey::AnimationID => AttribType::Int,
            AttribKey::Count => AttribType::Int,
            AttribKey::SubtractCount => AttribType::Bool,
            AttribKey::PickupMode => AttribType::Int,
            AttribKey::ItemID => AttribType::Int,
            AttribKey::TouchHoldMode => AttribType::Bool,
            AttribKey::TouchToggleMode => AttribType::Bool,
            AttribKey::ShakeInterval => AttribType::Float,
            AttribKey::EasingRate => AttribType::Float,
            AttribKey::ExclusivePulse => AttribType::Bool,
            AttribKey::MultiTrigger => AttribType::Bool,
            AttribKey::InstantCountComparison => AttribType::Int,
            AttribKey::TouchDualMode => AttribType::Bool,
            AttribKey::FollowPlayerYSpeed => AttribType::Float,
            AttribKey::FollowYDelay => AttribType::Float,
            AttribKey::FollowYOffset => AttribType::Float,
            AttribKey::TriggerOnExit => AttribType::Bool,
            AttribKey::IsDynamic => AttribType::Bool,
            AttribKey::BlockBID => AttribType::Int,
            AttribKey::DisableGlow => AttribType::Bool,
            AttribKey::CustomRotationSpeed => AttribType::Float,
            AttribKey::DisableRotation => AttribType::Bool,
            AttribKey::MultiActivateOrb => AttribType::Bool,
            AttribKey::EnableUseTarget => AttribType::Bool,
            AttribKey::TargetPosCoordinates => AttribType::Int,
            AttribKey::EditorDisable => AttribType::Bool,
            AttribKey::HighDetail => AttribType::Bool,
            AttribKey::MultiActivateTrigger => AttribType::Bool,
            AttribKey::MaxSpeedFollowY => AttribType::Float,
            AttribKey::RandomizeStartAnimation => AttribType::Bool,
            AttribKey::AnimationSpeed => AttribType::Float,
            AttribKey::LinkedGroupID => AttribType::Int,
        }
    }

    /// The key with numeric id `id`, if there is one.
    pub open spec fn spec_from_id(id: u16) -> Option<AttribKey> {
        if id == 1 {
            Some(AttribKey::ObjID)
        } else if id == 2 {
            Some(AttribKey::XPos)
        } else if id == 3 {
            Some(AttribKey::YPos)
        } else if id == 4 {
            Some(AttribKey::FlipH)
        } else if id == 5 {
            Some(AttribKey::FlipV)
        } else if id == 6 {
            Some(AttribKey::Rotation)
        } else if id == 7 {
            Some(AttribKey::Red)
        } else if id == 8 {
            Some(AttribKey::Green)
        } else if id == 9 {
            Some(AttribKey::Blue)
        } else if id == 10 {
            Some(AttribKey::Duration)
        } else if id == 11 {
            Some(AttribKey::TouchTriggered)
        } else if id == 12 {
            Some(AttribKey::SecretCoinID)
        } else if id == 13 {
            Some(AttribKey::SpecialCheck)
        } else if id == 14 {
            Some(AttribKey::TintGround)
        } else if id == 15 {
            Some(AttribKey::PlayerCol1)
        } else if id == 16 {
            Some(AttribKey::PlayerCol2)
        } else if id == 17 {
            Some(AttribKey::Blending)
        } else if id == 20 {
            Some(AttribKey::EditorLayer1)
        } else if id == 21 {
            Some(AttribKey::MainColorChannelID)
        } else if id == 22 {
            Some(AttribKey::SecondColorChannelID)
        } else if id == 23 {
            Some(AttribKey::TargetColorID)
        } else if id == 24 {
            Some(AttribKey::ZLayer)
        } else if id == 25 {
            Some(AttribKey::ZOrder)
        } else if id == 28 {
            Some(AttribKey::MoveOffsetX)
        } else if id == 29 {
            Some(AttribKey::MoveOffsetY)
        } else if id == 30 {
            Some(AttribKey::Easing)
        } else if id == 31 {
            Some(AttribKey::Text)
        } else if id == 32 {
            Some(AttribKey::Scale)
        } else if id == 34 {
            Some(AttribKey::IsGroupParent)
        } else if id == 35 {
            Some(AttribKey::Opacity)
        } else if id == 41 {
            Some(AttribKey::MainHSVEnabled)
        } else if id == 42 {
            Some(AttribKey::SecondHSVEnabled)
        } else if id == 43 {
            Some(AttribKey::MainColorHSV)
        } else if id == 44 {
            Some(AttribKey::SecondColorHSV)
        } else if id == 45 {
            Some(AttribKey::FadeInPulse)
        } else if id == 46 {
            Some(AttribKey::HoldPulse)
        } else if id == 47 {
            Some(AttribKey::FadeOutPulse)
        } else if id == 48 {
            Some(AttribKey::PulseMode)
        } else if id == 49 {
            Some(AttribKey::CopiedColorHSV)
        } else if id == 50 {
            Some(AttribKey::CopiedColorID)
        } else if id == 51 {
            Some(AttribKey::TargetGroupID)
        } else if id == 52 {
            Some(AttribKey::PulseTargetType)
        } else if id == 54 {
            Some(AttribKey::TeleportOffset)
        } else if id == 55 {
            Some(AttribKey::TeleportEase)
        } else if id == 56 {
            Some(AttribKey::ActivateGroup)
        } else if id == 57 {
            Some(AttribKey::GroupIDs)
        } else if id == 58 {
            Some(AttribKey::LockToPlayerX)
        } else if id == 59 {
            Some(AttribKey::LockToPlayerY)
        } else if id == 60 {
            Some(AttribKey::CopyOpacity)
        } else if id == 61 {
            Some(AttribKey::EditorLayer2)
        } else if id == 62 {
            Some(AttribKey::SpawnTriggered)
        } else if id == 63 {
            Some(AttribKey::SpawnDelay)
        } else if id == 64 {
            Some(AttribKey::DontFade)
        } else if id == 65 {
            Some(AttribKey::MainOnlyPulse)
        } else if id == 66 {
            Some(AttribKey::DetailOnlyPulse)
        } else if id == 67 {
            Some(AttribKey::DontEnter)
        } else if id == 68 {
            Some(AttribKey::RotateDegrees)
        } else if id == 69 {
            Some(AttribKey::RotateTimes360)
        } else if id == 70 {
            Some(AttribKey::LockObjectRotation)
        } else if id == 71 {
            Some(AttribKey::SecondaryGroupID)
        } else if id == 72 {
            Some(AttribKey::FollowXMod)
        } else if id == 73 {
            Some(AttribKey::FollowYMod)
        } else if id == 75 {
            Some(AttribKey::ShakeStrength)
        } else if id == 76 {
            Some(AttribKey::AnimationID)
        } else if id == 77 {
            Some(AttribKey::Count)
        } else if id == 78 {
            Some(AttribKey::SubtractCount)
        } else if id == 79 {
            Some(AttribKey::PickupMode)
        } else if id == 80 {
            Some(AttribKey::ItemID)
        } else if id == 81 {
            Some(AttribKey::TouchHoldMode)
        } else if id == 82 {
            Some(AttribKey::TouchToggleMode)
        } else if id == 84 {
            Some(AttribKey::ShakeInterval)
        } else if id == 85 {
            Some(AttribKey::EasingRate)
        } else if id == 86 {
            Some(AttribKey::ExclusivePulse)
        } else if id == 87 {
            Some(AttribKey::MultiTrigger)
        } else if id == 88 {
            Some(AttribKey::InstantCountComparison)
        } else if id == 89 {
            Some(AttribKey::TouchDualMode)
        } else if id == 90 {
            Some(AttribKey::FollowPlayerYSpeed)
        } else if id == 91 {
            Some(AttribKey::FollowYDelay)
        } else if id == 92 {
            Some(AttribKey::FollowYOffset)
        } else if id == 93 {
            Some(AttribKey::TriggerOnExit)
        } else if id == 94 {
            Some(AttribKey::IsDynamic)
        } else if id == 95 {
            Some(AttribKey::BlockBID)
        } else if id == 96 {
            Some(AttribKey::DisableGlow)
        } else if id == 97 {
            Some(AttribKey::CustomRotationSpeed)
        } else if id == 98 {
            Some(AttribKey::DisableRotation)
        } else if id == 99 {
            Some(AttribKey::MultiActivateOrb)
        } else if id == 100 {
            Some(AttribKey::EnableUseTarget)
        } else if id == 101 {
            Some(AttribKey::TargetPosCoordinates)
        } else if id == 102 {
            Some(AttribKey::EditorDisable)
        } else if id == 103 {
            Some(AttribKey::HighDetail)
        } else if id == 104 {
            Some(AttribKey::MultiActivateTrigger)
        } else if id == 105 {
            Some(AttribKey::MaxSpeedFollowY)
        } else if id == 106 {
            Some(AttribKey::RandomizeStartAnimation)
        } else if id == 107 {
            Some(AttribKey::AnimationSpeed)
        } else if id == 108 {
            Some(AttribKey::LinkedGroupID)
        } else {
            None
        }
    }

    pub fn from_id(id: u16) -> (r: Option<AttribKey>)
        ensures
            r == AttribKey::spec_from_id(id),
    {
        match id {
            1 => Some(AttribKey::ObjID),
            2 => Some(AttribKey::XPos),
            3 => Some(AttribKey::YPos),
            4 => Some(AttribKey::FlipH),
            5 => Some(AttribKey::FlipV),
            6 => Some(AttribKey::Rotation),
            7 => Some(AttribKey::Red),
            8 => Some(AttribKey::Green),
            9 => Some(AttribKey::Blue),
            10 => Some(AttribKey::Duration),
            11 => Some(AttribKey::TouchTriggered),
            12 => Some(AttribKey::SecretCoinID),
            13 => Some(AttribKey::SpecialCheck),
            14 => Some(AttribKey::TintGround),
            15 => Some(AttribKey::PlayerCol1),
            16 => Some(AttribKey::PlayerCol2),
            17 => Some(AttribKey::Blending),
            20 => Some(AttribKey::EditorLayer1),
            21 => Some(AttribKey::MainColorChannelID),
            22 => Some(AttribKey::SecondColorChannelID),
            23 => Some(AttribKey::TargetColorID),
            24 => Some(AttribKey::ZLayer),
            25 => Some(AttribKey::ZOrder),
            28 => Some(AttribKey::MoveOffsetX),
            29 => Some(AttribKey::MoveOffsetY),
            30 => Some(AttribKey::Easing),
            31 => Some(AttribKey::Text),
            32 => Some(AttribKey::Scale),
            34 => Some(AttribKey::IsGroupParent),
            35 => Some(AttribKey::Opacity),
            41 => Some(AttribKey::MainHSVEnabled),
            42 => Some(AttribKey::SecondHSVEnabled),
            43 => Some(AttribKey::MainColorHSV),
            44 => Some(AttribKey::SecondColorHSV),
            45 => Some(AttribKey::FadeInPulse),
            46 => Some(AttribKey::HoldPulse),
            47 => Some(AttribKey::FadeOutPulse),
            48 => Some(AttribKey::PulseMode),
            49 => Some(AttribKey::CopiedColorHSV),
            50 => Some(AttribKey::CopiedColorID),
            51 => Some(AttribKey::TargetGroupID),
            52 => Some(AttribKey::PulseTargetType),
            54 => Some(AttribKey::TeleportOffset),
            55 => Some(AttribKey::TeleportEase),
            56 => Some(AttribKey::ActivateGroup),
            57 => Some(AttribKey::GroupIDs),
            58 => Some(AttribKey::LockToPlayerX),
            59 => Some(AttribKey::LockToPlayerY),
            60 => Some(AttribKey::CopyOpacity),
            61 => Some(AttribKey::EditorLayer2),
            62 => Some(AttribKey::SpawnTriggered),
            63 => Some(AttribKey::SpawnDelay),
            64 => Some(AttribKey::DontFade),
            65 => Some(AttribKey::MainOnlyPulse),
            66 => Some(AttribKey::DetailOnlyPulse),
            67 => Some(AttribKey::DontEnter),
            68 => Some(AttribKey::RotateDegrees),
            69 => Some(AttribKey::RotateTimes360),
            70 => Some(AttribKey::LockObjectRotation),
            71 => Some(AttribKey::SecondaryGroupID),
            72 => Some(AttribKey::FollowXMod),
            73 => Some(AttribKey::FollowYMod),
            75 => Some(AttribKey::ShakeStrength),
            76 => Some(AttribKey::AnimationID),
            77 => Some(AttribKey::Count),
            78 => Some(AttribKey::SubtractCount),
            79 => Some(AttribKey::PickupMode),
            80 => Some(AttribKey::ItemID),
            81 => Some(AttribKey::TouchHoldMode),
            82 => Some(AttribKey::TouchToggleMode),
            84 => Some(AttribKey::ShakeInterval),
            85 => Some(AttribKey::EasingRate),
            86 => Some(AttribKey::ExclusivePulse),
            87 => Some(AttribKey::MultiTrigger),
            88 => Some(AttribKey::InstantCountComparison),
            89 => Some(AttribKey::TouchDualMode),
            90 => Some(AttribKey::FollowPlayerYSpeed),
            91 => Some(AttribKey::FollowYDelay),
            92 => Some(AttribKey::FollowYOffset),
            93 => Some(AttribKey::TriggerOnExit),
            94 => Some(AttribKey::IsDynamic),
            95 => Some(AttribKey::BlockBID),
            96 => Some(AttribKey::DisableGlow),
            97 => Some(AttribKey::CustomRotationSpeed),
            98 => Some(AttribKey::DisableRotation),
            99 => Some(AttribKey::MultiActivateOrb),
            100 => Some(AttribKey::EnableUseTarget),
            101 => Some(AttribKey::TargetPosCoordinates),
            102 => Some(AttribKey::EditorDisable),
            103 => Some(AttribKey::HighDetail),
            104 => Some(AttribKey::MultiActivateTrigger),
            105 => Some(AttribKey::MaxSpeedFollowY),
            106 => Some(AttribKey::RandomizeStartAnimation),
            107 => Some(AttribKey::AnimationSpeed),
            108 => Some(AttribKey::LinkedGroupID),
            _ => None,
        }
    }
}

/// Value stored under `k` in an attribute list, the last entry winning.
pub open spec fn lookup(s: Seq<(AttribKey, AttribValue)>, k: AttribKey) -> Option<AttribValue>
    decreases s.len(),
{
    if s.len() == 0 {
        None
    } else if s.last().0 == k {
        Some(s.last().1)
    } else {
        lookup(s.drop_last(), k)
    }
}

/// The attribute map of an attribute list.
pub open spec fn map_of(s: Seq<(AttribKey, AttribValue)>) -> Map<AttribKey, AttribValue> {
    Map::new(|k: AttribKey| lookup(s, k) is Some, |k: AttribKey| lookup(s, k)->0)
}

/// Keys appear once each, and every value has its key's declared type.
pub open spec fn entries_wf(s: Seq<(AttribKey, AttribValue)>) -> bool {
    &&& forall|i: int, j: int| 0 <= i < j < s.len() ==> s[i].0 != s[j].0
    &&& forall|i: int| 0 <= i < s.len() ==> (#[trigger] s[i]).0.spec_type() == s[i].1.spec_type()
}

proof fn lemma_lookup_update(s: Seq<(AttribKey, AttribValue)>, i: int, v: AttribValue, k: AttribKey)
    requires
        entries_wf(s),
        0 <= i < s.len(),
    ensures
        lookup(s.update(i, (s[i].0, v)), k) == if k == s[i].0 {
            Some(v)
        } else {
            lookup(s, k)
        },
    decreases s.len(),
{
    let t = s.update(i, (s[i].0, v));
    if i == s.len() - 1 {
        assert(t.drop_last() =~= s.drop_last());
    } else {
        assert(t.drop_last() =~= s.drop_last().update(i, (s[i].0, v)));
        lemma_lookup_update(s.drop_last(), i, v, k);
        if k == s[i].0 {
            assert(s.last().0 != k);
        }
    }
}

proof fn lemma_lookup_absent(s: Seq<(AttribKey, AttribValue)>, k: AttribKey)
    requires
        forall|i: int| 0 <= i < s.len() ==> s[i].0 != k,
    ensures
        lookup(s, k) is None,
    decreases s.len(),
{
    if s.len() > 0 {
        lemma_lookup_absent(s.drop_last(), k);
    }
}

pub proof fn lemma_lookup_found(s: Seq<(AttribKey, AttribValue)>, i: int)
    requires
        entries_wf(s),
        0 <= i < s.len(),
    ensures
        lookup(s, s[i].0) == Some(s[i].1),
    decreases s.len(),
{
    if i < s.len() - 1 {
        lemma_lookup_found(s.drop_last(), i);
    }
}

/// A level object: a set of typed attributes.
pub struct Obj {
    attribs: Vec<(AttribKey, AttribValue)>,
}

impl View for Obj {
    type V = Map<AttribKey, AttribValue>;

    open spec fn view(&self) -> Map<AttribKey, AttribValue> {
        map_of(self.entries())
    }
}

impl Obj {
    /// The attributes in the order they are kept and written out.
    pub closed spec fn entries(&self) -> Seq<(AttribKey, AttribValue)> {
        self.attribs@
    }

    #[verifier::type_invariant]
    spec fn inv(&self) -> bool {
        entries_wf(self.attribs@)
    }

    /// Number of attributes.
    pub fn len(&self) -> (r: usize)
        ensures
            r == self.entries().len(),
            entries_wf(self.entries()),
    {
        proof {
            use_type_invariant(self);
        }
        self.attribs.len()
    }

    /// Attribute `i` in the order they are kept.
    pub fn entry(&self, i: usize) -> (r: &(AttribKey, AttribValue))
        requires
            i < self.entries().len(),
        ensures
            *r == self.entries()[i as int],
    {
        &self.attribs[i]
    }

    /// An object without attributes.
    pub fn empty() -> (r: Obj)
        ensures
            r.entries() == Seq::<(AttribKey, AttribValue)>::empty(),
            r@ == Map::<AttribKey, AttribValue>::empty(),
    {
        let r = Obj { attribs: Vec::new() };
        assert(r@ =~= Map::<AttribKey, AttribValue>::empty());
        r
    }

    /// An object of type `id` at position `(x, y)` (micro-units).
    pub fn new(id: i32, x: i64, y: i64) -> (r: Obj)
        ensures
            r@ == map![
                AttribKey::ObjID => AttribValue::Int(id),
                AttribKey::XPos => AttribValue::Float(x),
                AttribKey::YPos => AttribValue::Float(y),
            ],
    {
        let obj = Obj::empty();
        obj.with(AttribKey::ObjID, AttribValue::Int(id)).with(AttribKey::XPos, AttribValue::Float(x)).with(
            AttribKey::YPos,
            AttribValue::Float(y),
        )
    }

    pub fn get(&self, key: AttribKey) -> (r: Option<&AttribValue>)
        ensures
            r matches Some(v) ==> self@.contains_key(key) && self@[key] == *v,
            r is None ==> !self@.contains_key(key),
    {
        proof {
            use_type_invariant(self);
        }
        let n = self.attribs.len();
        let mut i: usize = 0;
        while i < n
            invariant
                i <= n,
                n == self.attribs@.len(),
                entries_wf(self.attribs@),
                forall|j: int| 0 <= j < i ==> self.attribs@[j].0 != key,
            decreases n - i,
        {
            if self.attribs[i].0 == key {
                proof {
                    lemma_lookup_found(self.attribs@, i as int);
                }
                return Some(&self.attribs[i].1);
            }
            i += 1;
        }
        proof {
            lemma_lookup_absent(self.attribs@, key);
        }
        None
    }

    /// Whether the object has decimal `x` and `y` positions.
    pub open spec fn has_pos(&self) -> bool {
        &&& self@.contains_key(AttribKey::XPos)
        &&& self@[AttribKey::XPos] is Float
        &&& self@.contains_key(AttribKey::YPos)
        &&& self@[AttribKey::YPos] is Float
    }

    /// Position `(x, y)` in micro-units.
    pub fn get_pos(&self) -> (r: (i64, i64))
        requires
            self.has_pos(),
        ensures
            self@[AttribKey::XPos] == AttribValue::Float(r.0),
            self@[AttribKey::YPos] == AttribValue::Float(r.1),
    {
        let x = self.get(AttribKey::XPos);
        let y = self.get(AttribKey::YPos);
        match (x, y) {
            (Some(AttribValue::Float(x)), Some(AttribValue::Float(y))) => (*x, *y),
            _ => (0, 0),
        }
    }

    /// The object with rotation `rot` (micro-degrees).
    pub fn _with_rot(self, rot: i64) -> (r: Obj)
        ensures
            r@ == self@.insert(AttribKey::Rotation, AttribValue::Float(rot)),
    {
        self.with(AttribKey::Rotation, AttribValue::Float(rot))
    }

    /// Stores `val` under `key`, replacing what was there.
    pub fn set(&mut self, key: AttribKey, val: AttribValue)
        requires
            key.spec_type() == val.spec_type(),
        ensures
            final(self)@ == old(self)@.insert(key, val),
    {
        proof {
            use_type_invariant(&*self);
        }
        let n = self.attribs.len();
        let mut i: usize = 0;
        while i < n
            invariant
                i <= n,
                n == self.attribs@.len(),
                entries_wf(self.attribs@),
                self.attribs@ == old(self).attribs@,
                key.spec_type() == val.spec_type(),
                forall|j: int| 0 <= j < i ==> self.attribs@[j].0 != key,
            decreases n - i,
        {
            if self.attribs[i].0 == key {
                let ghost s = self.attribs@;
                let mut attribs = Vec::new();
                std::mem::swap(&mut attribs, &mut self.attribs);
                attribs.set(i, (key, val));
                proof {
                    assert(attribs@ == s.update(i as int, (s[i as int].0, val)));
                    assert forall|k: AttribKey| lookup(attribs@, k) == (if k == key {
                        Some(val)
                    } else {
                        lookup(s, k)
                    }) by {
                        lemma_lookup_update(s, i as int, val, k);
                    }
                    assert(map_of(attribs@) =~= map_of(s).insert(key, val));
                    assert(entries_wf(attribs@)) by {
                        assert forall|a: int| 0 <= a < attribs@.len() implies (#[trigger] attribs@[a]).0.spec_type()
                            == attribs@[a].1.spec_type() by {
                            if a != i {
                                assert(attribs@[a] == s[a]);
                            } else {
                                assert(s[a].0 == key);
                            }
                        }
                    }
                }
                self.attribs = attribs;
                assert(self@ == old(self)@.insert(key, val));
                return;
            }
            i += 1;
        }
        let ghost s = self.attribs@;
        let mut attribs = Vec::new();
        std::mem::swap(&mut attribs, &mut self.attribs);
        attribs.push((key, val));
        proof {
            assert(attribs@.drop_last() =~= s);
            assert(map_of(attribs@) =~= map_of(s).insert(key, val));
            assert(entries_wf(attribs@)) by {
                assert forall|a: int| 0 <= a < attribs@.len() implies (#[trigger] attribs@[a]).0.spec_type()
                    == attribs@[a].1.spec_type() by {
                    if a < s.len() {
                        assert(attribs@[a] == s[a]);
                    }
                }
            }
        }
        self.attribs = attribs;
        assert(self@ == old(self)@.insert(key, val));
    }

    /// The object with `val` stored under `key`.
    pub fn with(self, key: AttribKey, val: AttribValue) -> (r: Obj)
        requires
            key.spec_type() == val.spec_type(),
        ensures
            r@ == self@.insert(key, val),
    {
        let mut obj = self;
        obj.set(key, val);
        obj
    }
}

/// Every key has its own id, and looking that id up gives the key back.
pub proof fn lemma_key_ids(k: AttribKey)
    ensures
        AttribKey::spec_from_id(k.spec_id()) == Some(k),
{
}

} // verus!
