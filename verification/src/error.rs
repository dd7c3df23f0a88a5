use vstd::prelude::*;

use crate::types::Span;

verus! {

/// A type-checking diagnostic: what went wrong and where.
#[derive(Clone, Copy, Debug, PartialEq, Eq, Structural)]
pub enum TcError {
    // 3000-3099: Internal (catch-all)
    Internal { span: Span },

    // 3100-3199: Word signatures
    SigTypeInvalid { span: Span },
    SigTooManyInputs { span: Span },
    SigTooManyOutputs { span: Span },

    // 3200-3299: Stack/Control Flow/Argument/Binding Errors
    NoSig { span: Span },
    ExpectedIdent { span: Span },
    StackUnderflow { span: Span },
    TypeParseFailed { span: Span },
    BindingAlreadyDefined { span: Span },
    BindingCapacityExceeded { span: Span },
    StackOverflow { span: Span },
    WordNotFound { span: Span },
    SigStackUnderflow { span: Span },
    SigTypeMismatch { span: Span },
    OutputCountMismatch { span: Span },
    OutputTypeMismatch { span: Span },
    ReturnStackDepth { span: Span },
    ReturnTypeMismatch { span: Span },
    IfPopElse { span: Span },
    IfPopThen { span: Span },
    IfPopCond { span: Span },
    IfCondNotBool { span: Span },
    IfThenNotQuot { span: Span },
    IfElseNotQuot { span: Span },
    IfBranchDepth { span: Span },
    IfBranchContent { span: Span },
    WhilePopBody { span: Span },
    WhilePopCond { span: Span },
    WhileBodyNotQuot { span: Span },
    WhileCondNotQuot { span: Span },
    WhileCondDepth { span: Span },
    WhileCondNotBool { span: Span },
    WhileCondModifiedStack { span: Span },
    WhileBodyDepth { span: Span },
    WhileBodyModifiedStack { span: Span },
    LoopPopBody { span: Span },
    LoopBodyNotQuot { span: Span },
    LoopBodyDepth { span: Span },
    LoopBodyModifiedStack { span: Span },
    LockPopBody { span: Span },
    LockBodyNotQuot { span: Span },
    LockBodyDepth { span: Span },
    LockBodyModifiedStack { span: Span },
    QuoteWordNotFound { span: Span },
    QuoteStackUnderflow { span: Span },
    BindNotAllowed { span: Span },
    QuoteUnterminated { span: Span },
    CastParseFailed { span: Span },
    CastTypeInvalid { span: Span },
    CastPopValue { span: Span },
    CheckedCastMismatch { span: Span },
    CastMissingValue { span: Span },
    CastSubtypeMismatch { span: Span },
    BitcastOnSubtype { span: Span },
    BitcastWidthUnknown { span: Span },
    BitcastWidthMismatch { span: Span },
    CastNotAllowed { span: Span },
    ContractDepth { span: Span },
    ContractNotBool { span: Span },
    ContractModifiedInputs { span: Span },

    // 3500-3519: Scoped values
    PlaceParseFailed { span: Span },
    MutRefToLocal { span: Span },
    ScopedLiveAtSuspend { span: Span },
    SuspendingInNonSuspendingContext { span: Span },
    ScopedLeak { span: Span },
    EmptyStackForScoped { span: Span },
    ScopedBlockUnterminated { span: Span },
    ScopedMarkerLeak { span: Span },
    ReturnWithScoped { span: Span },
    ScopeDepthExceeded { span: Span },
    SliceTypeFailed { span: Span },
    LocalNotLive { span: Span },
    ScopedTypeMismatch { span: Span },
    LockNested { span: Span },
    ArrayIndexOob { span: Span },
    IndexError { span: Span },

    // 3520-3522: Resources/db
    ResourceNameInvalid { span: Span },
    ResourceTypeInvalid { span: Span },
    ResourceCapacityExceeded { span: Span },
    IsrCapacityExceeded { span: Span },

    // 3600-3614: MMIO
    MmioPlaceTooDeep { span: Span },
    MmioMapNotFound { span: Span },
    MmioRegNotFound { span: Span },
    MmioArrayIndexOob { span: Span },
    MmioArrayIndexMissing { span: Span },
    MmioArrayIndexNonArray { span: Span },
    MmioFieldNotFound { span: Span },
    MmioFieldNotAddressable { span: Span },
    MmioAccessViolation { span: Span },
    MmioReadNotAllowed { span: Span },
    MmioRegMisaligned { span: Span },
    MmioRegUnknownWidth { span: Span },
    MmioTypedTypeMismatch { span: Span },
    MmioTypedNotAllowed { span: Span },

    // 3615-3631: MMIO parsing
    MmioParseFailed { span: Span },
    MmioExpectedIdent { span: Span },
    MmioFieldBitRange { span: Span },
    MmioExpectedType { span: Span },
    MmioRegTypeInvalid { span: Span },
    MmioExpectedAccess { span: Span },
    MmioInvalidAccess { span: Span },
    MmioUnexpectedEof { span: Span },
    MmioFieldNameInvalid { span: Span },
    MmioExpectedLowBit { span: Span },
    MmioBadLowBit { span: Span },
    MmioExpectedHighBit { span: Span },
    MmioBadHighBit { span: Span },
    MmioExpectedFieldType { span: Span },
    MmioFieldTypeInvalid { span: Span },
    MmioExpectedFieldAccess { span: Span },
    MmioInvalidFieldAccess { span: Span },

    // 3632-3634: MMIO typed(load/store resolution)
    MmioTypedAtomInvalid { span: Span },
    MmioTypedPopAddr { span: Span },
    MmioTypedMismatch { span: Span },
    MmioPhantomRead { span: Span },
    MmioOverWideAccess { span: Span },

    // 3700-3718: Struct/Enum
    DestructBorrowMix { span: Span },
    DestructExpectedIdent { span: Span },
    DestructEmpty { span: Span },
    DestructNotStruct { span: Span },
    DestructFieldCount { span: Span },
    StructNameInvalid { span: Span },
    StructFieldNameInvalid { span: Span },
    StructFieldDuplicate { span: Span },
    StructFieldTypeInvalid { span: Span },
    StructDbCapacity { span: Span },
    PlaceSegmentEmpty { span: Span },
    FieldNotFound { span: Span },
    TypedLoadStoreTypeMismatch { span: Span },
    FieldSizeError { span: Span },

    // 3720-3725: Enum
    EnumNameInvalid { span: Span },
    EnumBaseTypeInvalid { span: Span },
    EnumVariantNameInvalid { span: Span },
    EnumVariantDuplicate { span: Span },
    EnumVariantCapacityExceeded { span: Span },
    EnumVariantNotFound { span: Span },

    // 3730-3734: Channel send/recv
    ChanSendPop { span: Span },
    ChanSendType { span: Span },
    ChanSendValueMismatch { span: Span },
    ChanRecvPop { span: Span },
    ChanRecvType { span: Span },

    // 3740-3743: Iso
    IsoNameInvalid { span: Span },
    IsoCapacityExceeded { span: Span },
    IsoDupForbidden { span: Span },
    IsoDropForbidden { span: Span },

    // 3750-3760: Task/Call/Quote
    TaskRunPop { span: Span },
    TaskRunNotQuot { span: Span },
    TaskRunDepth { span: Span },
    TaskRunModified { span: Span },
    TaskSpawnPop { span: Span },
    TaskSpawnSig { span: Span },
    TaskSpawnType { span: Span },
    CallPopQuot { span: Span },
    QuoteSyntax { span: Span },

    // 3900-3907: Capacity/Internal
    AtomTooLong { span: Span },
    TypeTableFull { span: Span },
    BlockTableFull { span: Span },
    BlockNotFound { span: Span },
    OpTableFull { span: Span },
    ArenaFull { span: Span },
    TooManyTypes { span: Span },
    BorrowLedgerFull { span: Span },

    // 5000-5099: Borrows
    BorrowEscape { span: Span },
    BorrowAlias { span: Span, first: Span },
}

impl TcError {
    /// The diagnostic number reported for this error.
    pub open spec fn spec_code(self) -> u32 {
        match self {
            TcError::Internal { .. } => 3000,
            TcError::SigTypeInvalid { .. } => 3100,
            TcError::SigTooManyInputs { .. } => 3102,
            TcError::SigTooManyOutputs { .. } => 3103,
            TcError::NoSig { .. } => 3200,
            TcError::ExpectedIdent { .. } => 3201,
            TcError::StackUnderflow { .. } => 3202,
            TcError::TypeParseFailed { .. } => 3203,
            TcError::BindingAlreadyDefined { .. } => 3204,
            TcError::BindingCapacityExceeded { .. } => 3205,
            TcError::StackOverflow { .. } => 3206,
            TcError::WordNotFound { .. } => 3210,
            TcError::SigStackUnderflow { .. } => 3211,
            TcError::SigTypeMismatch { .. } => 3212,
            TcError::OutputCountMismatch { .. } => 3220,
            TcError::OutputTypeMismatch { .. } => 3221,
            TcError::ReturnStackDepth { .. } => 3230,
            TcError::ReturnTypeMismatch { .. } => 3231,
            TcError::IfPopElse { .. } => 3240,
            TcError::IfPopThen { .. } => 3241,
            TcError::IfPopCond { .. } => 3242,
            TcError::IfCondNotBool { .. } => 3243,
            TcError::IfThenNotQuot { .. } => 3244,
            TcError::IfElseNotQuot { .. } => 3245,
            TcError::IfBranchDepth { .. } => 3246,
            TcError::IfBranchContent { .. } => 3247,
            TcError::WhilePopBody { .. } => 3250,
            TcError::WhilePopCond { .. } => 3251,
            TcError::WhileBodyNotQuot { .. } => 3252,
            TcError::WhileCondNotQuot { .. } => 3253,
            TcError::WhileCondDepth { .. } => 3254,
            TcError::WhileCondNotBool { .. } => 3255,
            TcError::WhileCondModifiedStack { .. } => 3256,
            TcError::WhileBodyDepth { .. } => 3257,
            TcError::WhileBodyModifiedStack { .. } => 3258,
            TcError::LoopPopBody { .. } => 3260,
            TcError::LoopBodyNotQuot { .. } => 3261,
            TcError::LoopBodyDepth { .. } => 3262,
            TcError::LoopBodyModifiedStack { .. } => 3263,
            TcError::LockPopBody { .. } => 3270,
            TcError::LockBodyNotQuot { .. } => 3271,
            TcError::LockBodyDepth { .. } => 3272,
            TcError::LockBodyModifiedStack { .. } => 3273,
            TcError::QuoteWordNotFound { .. } => 3280,
            TcError::QuoteStackUnderflow { .. } => 3282,
            TcError::BindNotAllowed { .. } => 3281,
            TcError::QuoteUnterminated { .. } => 3290,
            TcError::CastParseFailed { .. } => 3295,
            TcError::CastTypeInvalid { .. } => 3296,
            TcError::CastPopValue { .. } => 3297,
            TcError::CheckedCastMismatch { .. } => 3298,
            TcError::CastMissingValue { .. } => 3299,
            TcError::CastSubtypeMismatch { .. } => 3300,
            TcError::BitcastOnSubtype { .. } => 3302,
            TcError::BitcastWidthUnknown { .. } => 3303,
            TcError::BitcastWidthMismatch { .. } => 3304,
            TcError::CastNotAllowed { .. } => 3305,
            TcError::ContractDepth { .. } => 3310,
            TcError::ContractNotBool { .. } => 3311,
            TcError::ContractModifiedInputs { .. } => 3312,
            TcError::PlaceParseFailed { .. } => 3500,
            TcError::MutRefToLocal { .. } => 3501,
            TcError::ScopedLiveAtSuspend { .. } => 3502,
            TcError::SuspendingInNonSuspendingContext { .. } => 3503,
            TcError::ScopedLeak { .. } => 3504,
            TcError::EmptyStackForScoped { .. } => 3505,
            TcError::ScopedBlockUnterminated { .. } => 3590,
            TcError::ScopedMarkerLeak { .. } => 3506,
            TcError::ReturnWithScoped { .. } => 3511,
            TcError::ScopeDepthExceeded { .. } => 3512,
            TcError::SliceTypeFailed { .. } => 3513,
            TcError::LocalNotLive { .. } => 3514,
            TcError::ScopedTypeMismatch { .. } => 3515,
            TcError::LockNested { .. } => 3517,
            TcError::ArrayIndexOob { .. } => 3518,
            TcError::IndexError { .. } => 3519,
            TcError::ResourceNameInvalid { .. } => 3520,
            TcError::ResourceTypeInvalid { .. } => 3521,
            TcError::ResourceCapacityExceeded { .. } => 3522,
            TcError::IsrCapacityExceeded { .. } => 3523,
            TcError::MmioPlaceTooDeep { .. } => 3600,
            TcError::MmioMapNotFound { .. } => 3602,
            TcError::MmioRegNotFound { .. } => 3603,
            TcError::MmioArrayIndexOob { .. } => 3604,
            TcError::MmioArrayIndexMissing { .. } => 3605,
            TcError::MmioArrayIndexNonArray { .. } => 3606,
            TcError::MmioFieldNotFound { .. } => 3607,
            TcError::MmioFieldNotAddressable { .. } => 3608,
            TcError::MmioAccessViolation { .. } => 3609,
            TcError::MmioReadNotAllowed { .. } => 3610,
            TcError::MmioRegMisaligned { .. } => 3611,
            TcError::MmioRegUnknownWidth { .. } => 3612,
            TcError::MmioTypedTypeMismatch { .. } => 3613,
            TcError::MmioTypedNotAllowed { .. } => 3614,
            TcError::MmioParseFailed { .. } => 3615,
            TcError::MmioExpectedIdent { .. } => 3616,
            TcError::MmioFieldBitRange { .. } => 3617,
            TcError::MmioExpectedType { .. } => 3618,
            TcError::MmioRegTypeInvalid { .. } => 3619,
            TcError::MmioExpectedAccess { .. } => 3620,
            TcError::MmioInvalidAccess { .. } => 3621,
            TcError::MmioUnexpectedEof { .. } => 3622,
            TcError::MmioFieldNameInvalid { .. } => 3623,
            TcError::MmioExpectedLowBit { .. } => 3624,
            TcError::MmioBadLowBit { .. } => 3625,
            TcError::MmioExpectedHighBit { .. } => 3626,
            TcError::MmioBadHighBit { .. } => 3627,
            TcError::MmioExpectedFieldType { .. } => 3628,
            TcError::MmioFieldTypeInvalid { .. } => 3629,
            TcError::MmioExpectedFieldAccess { .. } => 3630,
            TcError::MmioInvalidFieldAccess { .. } => 3631,
            TcError::MmioTypedAtomInvalid { .. } => 3632,
            TcError::MmioTypedPopAddr { .. } => 3633,
            TcError::MmioTypedMismatch { .. } => 3634,
            TcError::MmioPhantomRead { .. } => 3642,
            TcError::MmioOverWideAccess { .. } => 3643,
            TcError::DestructBorrowMix { .. } => 3701,
            TcError::DestructExpectedIdent { .. } => 3702,
            TcError::DestructEmpty { .. } => 3703,
            TcError::DestructNotStruct { .. } => 3704,
            TcError::DestructFieldCount { .. } => 3705,
            TcError::StructNameInvalid { .. } => 3710,
            TcError::StructFieldNameInvalid { .. } => 3711,
            TcError::StructFieldDuplicate { .. } => 3712,
            TcError::StructFieldTypeInvalid { .. } => 3713,
            TcError::StructDbCapacity { .. } => 3714,
            TcError::PlaceSegmentEmpty { .. } => 3715,
            TcError::FieldNotFound { .. } => 3716,
            TcError::TypedLoadStoreTypeMismatch { .. } => 3717,
            TcError::FieldSizeError { .. } => 3718,
            TcError::EnumNameInvalid { .. } => 3720,
            TcError::EnumBaseTypeInvalid { .. } => 3721,
            TcError::EnumVariantNameInvalid { .. } => 3722,
            TcError::EnumVariantDuplicate { .. } => 3723,
            TcError::EnumVariantCapacityExceeded { .. } => 3724,
            TcError::EnumVariantNotFound { .. } => 3725,
            TcError::ChanSendPop { .. } => 3730,
            TcError::ChanSendType { .. } => 3731,
            TcError::ChanSendValueMismatch { .. } => 3732,
            TcError::ChanRecvPop { .. } => 3733,
            TcError::ChanRecvType { .. } => 3734,
            TcError::IsoNameInvalid { .. } => 3740,
            TcError::IsoCapacityExceeded { .. } => 3741,
            TcError::IsoDupForbidden { .. } => 3742,
            TcError::IsoDropForbidden { .. } => 3743,
            TcError::TaskRunPop { .. } => 3750,
            TcError::TaskRunNotQuot { .. } => 3751,
            TcError::TaskRunDepth { .. } => 3752,
            TcError::TaskRunModified { .. } => 3753,
            TcError::TaskSpawnPop { .. } => 3754,
            TcError::TaskSpawnSig { .. } => 3756,
            TcError::TaskSpawnType { .. } => 3757,
            TcError::CallPopQuot { .. } => 3758,
            TcError::QuoteSyntax { .. } => 3760,
            TcError::AtomTooLong { .. } => 3901,
            TcError::TypeTableFull { .. } => 3902,
            TcError::BlockTableFull { .. } => 3903,
            TcError::BlockNotFound { .. } => 3904,
            TcError::OpTableFull { .. } => 3905,
            TcError::ArenaFull { .. } => 3906,
            TcError::TooManyTypes { .. } => 3907,
            TcError::BorrowLedgerFull { .. } => 3908,
            TcError::BorrowEscape { .. } => 5020,
            TcError::BorrowAlias { .. } => 5021,
        }
    }

    /// The source range the error points at.
    pub open spec fn spec_span(self) -> Span {
        match self {
            TcError::Internal { span } => span,
            TcError::SigTypeInvalid { span } => span,
            TcError::SigTooManyInputs { span } => span,
            TcError::SigTooManyOutputs { span } => span,
            TcError::NoSig { span } => span,
            TcError::ExpectedIdent { span } => span,
            TcError::StackUnderflow { span } => span,
            TcError::TypeParseFailed { span } => span,
            TcError::BindingAlreadyDefined { span } => span,
            TcError::BindingCapacityExceeded { span } => span,
            TcError::StackOverflow { span } => span,
            TcError::WordNotFound { span } => span,
            TcError::SigStackUnderflow { span } => span,
            TcError::SigTypeMismatch { span } => span,
            TcError::OutputCountMismatch { span } => span,
            TcError::OutputTypeMismatch { span } => span,
            TcError::ReturnStackDepth { span } => span,
            TcError::ReturnTypeMismatch { span } => span,
            TcError::IfPopElse { span } => span,
            TcError::IfPopThen { span } => span,
            TcError::IfPopCond { span } => span,
            TcError::IfCondNotBool { span } => span,
            TcError::IfThenNotQuot { span } => span,
            TcError::IfElseNotQuot { span } => span,
            TcError::IfBranchDepth { span } => span,
            TcError::IfBranchContent { span } => span,
            TcError::WhilePopBody { span } => span,
            TcError::WhilePopCond { span } => span,
            TcError::WhileBodyNotQuot { span } => span,
            TcError::WhileCondNotQuot { span } => span,
            TcError::WhileCondDepth { span } => span,
            TcError::WhileCondNotBool { span } => span,
            TcError::WhileCondModifiedStack { span } => span,
            TcError::WhileBodyDepth { span } => span,
            TcError::WhileBodyModifiedStack { span } => span,
            TcError::LoopPopBody { span } => span,
            TcError::LoopBodyNotQuot { span } => span,
            TcError::LoopBodyDepth { span } => span,
            TcError::LoopBodyModifiedStack { span } => span,
            TcError::LockPopBody { span } => span,
            TcError::LockBodyNotQuot { span } => span,
            TcError::LockBodyDepth { span } => span,
            TcError::LockBodyModifiedStack { span } => span,
            TcError::QuoteWordNotFound { span } => span,
            TcError::QuoteStackUnderflow { span } => span,
            TcError::BindNotAllowed { span } => span,
            TcError::QuoteUnterminated { span } => span,
            TcError::CastParseFailed { span } => span,
            TcError::CastTypeInvalid { span } => span,
            TcError::CastPopValue { span } => span,
            TcError::CheckedCastMismatch { span } => span,
            TcError::CastMissingValue { span } => span,
            TcError::CastSubtypeMismatch { span } => span,
            TcError::BitcastOnSubtype { span } => span,
            TcError::BitcastWidthUnknown { span } => span,
            TcError::BitcastWidthMismatch { span } => span,
            TcError::CastNotAllowed { span } => span,
            TcError::ContractDepth { span } => span,
            TcError::ContractNotBool { span } => span,
            TcError::ContractModifiedInputs { span } => span,
            TcError::PlaceParseFailed { span } => span,
            TcError::MutRefToLocal { span } => span,
            TcError::ScopedLiveAtSuspend { span } => span,
            TcError::SuspendingInNonSuspendingContext { span } => span,
            TcError::ScopedLeak { span } => span,
            TcError::EmptyStackForScoped { span } => span,
            TcError::ScopedBlockUnterminated { span } => span,
            TcError::ScopedMarkerLeak { span } => span,
            TcError::ReturnWithScoped { span } => span,
            TcError::ScopeDepthExceeded { span } => span,
            TcError::SliceTypeFailed { span } => span,
            TcError::LocalNotLive { span } => span,
            TcError::ScopedTypeMismatch { span } => span,
            TcError::LockNested { span } => span,
            TcError::ArrayIndexOob { span } => span,
            TcError::IndexError { span } => span,
            TcError::ResourceNameInvalid { span } => span,
            TcError::ResourceTypeInvalid { span } => span,
            TcError::ResourceCapacityExceeded { span } => span,
            TcError::IsrCapacityExceeded { span } => span,
            TcError::MmioPlaceTooDeep { span } => span,
            TcError::MmioMapNotFound { span } => span,
            TcError::MmioRegNotFound { span } => span,
            TcError::MmioArrayIndexOob { span } => span,
            TcError::MmioArrayIndexMissing { span } => span,
            TcError::MmioArrayIndexNonArray { span } => span,
            TcError::MmioFieldNotFound { span } => span,
            TcError::MmioFieldNotAddressable { span } => span,
            TcError::MmioAccessViolation { span } => span,
            TcError::MmioReadNotAllowed { span } => span,
            TcError::MmioRegMisaligned { span } => span,
            TcError::MmioRegUnknownWidth { span } => span,
            TcError::MmioTypedTypeMismatch { span } => span,
            TcError::MmioTypedNotAllowed { span } => span,
            TcError::MmioParseFailed { span } => span,
            TcError::MmioExpectedIdent { span } => span,
            TcError::MmioFieldBitRange { span } => span,
            TcError::MmioExpectedType { span } => span,
            TcError::MmioRegTypeInvalid { span } => span,
            TcError::MmioExpectedAccess { span } => span,
            TcError::MmioInvalidAccess { span } => span,
            TcError::MmioUnexpectedEof { span } => span,
            TcError::MmioFieldNameInvalid { span } => span,
            TcError::MmioExpectedLowBit { span } => span,
            TcError::MmioBadLowBit { span } => span,
            TcError::MmioExpectedHighBit { span } => span,
            TcError::MmioBadHighBit { span } => span,
            TcError::MmioExpectedFieldType { span } => span,
            TcError::MmioFieldTypeInvalid { span } => span,
            TcError::MmioExpectedFieldAccess { span } => span,
            TcError::MmioInvalidFieldAccess { span } => span,
            TcError::MmioTypedAtomInvalid { span } => span,
            TcError::MmioTypedPopAddr { span } => span,
            TcError::MmioTypedMismatch { span } => span,
            TcError::MmioPhantomRead { span } => span,
            TcError::MmioOverWideAccess { span } => span,
            TcError::DestructBorrowMix { span } => span,
            TcError::DestructExpectedIdent { span } => span,
            TcError::DestructEmpty { span } => span,
            TcError::DestructNotStruct { span } => span,
            TcError::DestructFieldCount { span } => span,
            TcError::StructNameInvalid { span } => span,
            TcError::StructFieldNameInvalid { span } => span,
            TcError::StructFieldDuplicate { span } => span,
            TcError::StructFieldTypeInvalid { span } => span,
            TcError::StructDbCapacity { span } => span,
            TcError::PlaceSegmentEmpty { span } => span,
            TcError::FieldNotFound { span } => span,
            TcError::TypedLoadStoreTypeMismatch { span } => span,
            TcError::FieldSizeError { span } => span,
            TcError::EnumNameInvalid { span } => span,
            TcError::EnumBaseTypeInvalid { span } => span,
            TcError::EnumVariantNameInvalid { span } => span,
            TcError::EnumVariantDuplicate { span } => span,
            TcError::EnumVariantCapacityExceeded { span } => span,
            TcError::EnumVariantNotFound { span } => span,
            TcError::ChanSendPop { span } => span,
            TcError::ChanSendType { span } => span,
            TcError::ChanSendValueMismatch { span } => span,
            TcError::ChanRecvPop { span } => span,
            TcError::ChanRecvType { span } => span,
            TcError::IsoNameInvalid { span } => span,
            TcError::IsoCapacityExceeded { span } => span,
            TcError::IsoDupForbidden { span } => span,
            TcError::IsoDropForbidden { span } => span,
            TcError::TaskRunPop { span } => span,
            TcError::TaskRunNotQuot { span } => span,
            TcError::TaskRunDepth { span } => span,
            TcError::TaskRunModified { span } => span,
            TcError::TaskSpawnPop { span } => span,
            TcError::TaskSpawnSig { span } => span,
            TcError::TaskSpawnType { span } => span,
            TcError::CallPopQuot { span } => span,
            TcError::QuoteSyntax { span } => span,
            TcError::AtomTooLong { span } => span,
            TcError::TypeTableFull { span } => span,
            TcError::BlockTableFull { span } => span,
            TcError::BlockNotFound { span } => span,
            TcError::OpTableFull { span } => span,
            TcError::ArenaFull { span } => span,
            TcError::TooManyTypes { span } => span,
            TcError::BorrowLedgerFull { span } => span,
            TcError::BorrowEscape { span } => span,
            TcError::BorrowAlias { span, .. } => span,
        }
    }

    #[verifier::when_used_as_spec(spec_code)]
    pub fn code(self) -> (c: u32)
        ensures
            c == self.spec_code(),
    {
        match self {
            TcError::Internal { .. } => 3000,
            TcError::SigTypeInvalid { .. } => 3100,
            TcError::SigTooManyInputs { .. } => 3102,
            TcError::SigTooManyOutputs { .. } => 3103,
            TcError::NoSig { .. } => 3200,
            TcError::ExpectedIdent { .. } => 3201,
            TcError::StackUnderflow { .. } => 3202,
            TcError::TypeParseFailed { .. } => 3203,
            TcError::BindingAlreadyDefined { .. } => 3204,
            TcError::BindingCapacityExceeded { .. } => 3205,
            TcError::StackOverflow { .. } => 3206,
            TcError::WordNotFound { .. } => 3210,
            TcError::SigStackUnderflow { .. } => 3211,
            TcError::SigTypeMismatch { .. } => 3212,
            TcError::OutputCountMismatch { .. } => 3220,
            TcError::OutputTypeMismatch { .. } => 3221,
            TcError::ReturnStackDepth { .. } => 3230,
            TcError::ReturnTypeMismatch { .. } => 3231,
            TcError::IfPopElse { .. } => 3240,
            TcError::IfPopThen { .. } => 3241,
            TcError::IfPopCond { .. } => 3242,
            TcError::IfCondNotBool { .. } => 3243,
            TcError::IfThenNotQuot { .. } => 3244,
            TcError::IfElseNotQuot { .. } => 3245,
            TcError::IfBranchDepth { .. } => 3246,
            TcError::IfBranchContent { .. } => 3247,
            TcError::WhilePopBody { .. } => 3250,
            TcError::WhilePopCond { .. } => 3251,
            TcError::WhileBodyNotQuot { .. } => 3252,
            TcError::WhileCondNotQuot { .. } => 3253,
            TcError::WhileCondDepth { .. } => 3254,
            TcError::WhileCondNotBool { .. } => 3255,
            TcError::WhileCondModifiedStack { .. } => 3256,
            TcError::WhileBodyDepth { .. } => 3257,
            TcError::WhileBodyModifiedStack { .. } => 3258,
            TcError::LoopPopBody { .. } => 3260,
            TcError::LoopBodyNotQuot { .. } => 3261,
            TcError::LoopBodyDepth { .. } => 3262,
            TcError::LoopBodyModifiedStack { .. } => 3263,
            TcError::LockPopBody { .. } => 3270,
            TcError::LockBodyNotQuot { .. } => 3271,
            TcError::LockBodyDepth { .. } => 3272,
            TcError::LockBodyModifiedStack { .. } => 3273,
            TcError::QuoteWordNotFound { .. } => 3280,
            TcError::QuoteStackUnderflow { .. } => 3282,
            TcError::BindNotAllowed { .. } => 3281,
            TcError::QuoteUnterminated { .. } => 3290,
            TcError::CastParseFailed { .. } => 3295,
            TcError::CastTypeInvalid { .. } => 3296,
            TcError::CastPopValue { .. } => 3297,
            TcError::CheckedCastMismatch { .. } => 3298,
            TcError::CastMissingValue { .. } => 3299,
            TcError::CastSubtypeMismatch { .. } => 3300,
            TcError::BitcastOnSubtype { .. } => 3302,
            TcError::BitcastWidthUnknown { .. } => 3303,
            TcError::BitcastWidthMismatch { .. } => 3304,
            TcError::CastNotAllowed { .. } => 3305,
            TcError::ContractDepth { .. } => 3310,
            TcError::ContractNotBool { .. } => 3311,
            TcError::ContractModifiedInputs { .. } => 3312,
            TcError::PlaceParseFailed { .. } => 3500,
            TcError::MutRefToLocal { .. } => 3501,
            TcError::ScopedLiveAtSuspend { .. } => 3502,
            TcError::SuspendingInNonSuspendingContext { .. } => 3503,
            TcError::ScopedLeak { .. } => 3504,
            TcError::EmptyStackForScoped { .. } => 3505,
            TcError::ScopedBlockUnterminated { .. } => 3590,
            TcError::ScopedMarkerLeak { .. } => 3506,
            TcError::ReturnWithScoped { .. } => 3511,
            TcError::ScopeDepthExceeded { .. } => 3512,
            TcError::SliceTypeFailed { .. } => 3513,
            TcError::LocalNotLive { .. } => 3514,
            TcError::ScopedTypeMismatch { .. } => 3515,
            TcError::LockNested { .. } => 3517,
            TcError::ArrayIndexOob { .. } => 3518,
            TcError::IndexError { .. } => 3519,
            TcError::ResourceNameInvalid { .. } => 3520,
            TcError::ResourceTypeInvalid { .. } => 3521,
            TcError::ResourceCapacityExceeded { .. } => 3522,
            TcError::IsrCapacityExceeded { .. } => 3523,
            TcError::MmioPlaceTooDeep { .. } => 3600,
            TcError::MmioMapNotFound { .. } => 3602,
            TcError::MmioRegNotFound { .. } => 3603,
            TcError::MmioArrayIndexOob { .. } => 3604,
            TcError::MmioArrayIndexMissing { .. } => 3605,
            TcError::MmioArrayIndexNonArray { .. } => 3606,
            TcError::MmioFieldNotFound { .. } => 3607,
            TcError::MmioFieldNotAddressable { .. } => 3608,
            TcError::MmioAccessViolation { .. } => 3609,
            TcError::MmioReadNotAllowed { .. } => 3610,
            TcError::MmioRegMisaligned { .. } => 3611,
            TcError::MmioRegUnknownWidth { .. } => 3612,
            TcError::MmioTypedTypeMismatch { .. } => 3613,
            TcError::MmioTypedNotAllowed { .. } => 3614,
            TcError::MmioParseFailed { .. } => 3615,
            TcError::MmioExpectedIdent { .. } => 3616,
            TcError::MmioFieldBitRange { .. } => 3617,
            TcError::MmioExpectedType { .. } => 3618,
            TcError::MmioRegTypeInvalid { .. } => 3619,
            TcError::MmioExpectedAccess { .. } => 3620,
            TcError::MmioInvalidAccess { .. } => 3621,
            TcError::MmioUnexpectedEof { .. } => 3622,
            TcError::MmioFieldNameInvalid { .. } => 3623,
            TcError::MmioExpectedLowBit { .. } => 3624,
            TcError::MmioBadLowBit { .. } => 3625,
            TcError::MmioExpectedHighBit { .. } => 3626,
            TcError::MmioBadHighBit { .. } => 3627,
            TcError::MmioExpectedFieldType { .. } => 3628,
            TcError::MmioFieldTypeInvalid { .. } => 3629,
            TcError::MmioExpectedFieldAccess { .. } => 3630,
            TcError::MmioInvalidFieldAccess { .. } => 3631,
            TcError::MmioTypedAtomInvalid { .. } => 3632,
            TcError::MmioTypedPopAddr { .. } => 3633,
            TcError::MmioTypedMismatch { .. } => 3634,
            TcError::MmioPhantomRead { .. } => 3642,
            TcError::MmioOverWideAccess { .. } => 3643,
            TcError::DestructBorrowMix { .. } => 3701,
            TcError::DestructExpectedIdent { .. } => 3702,
            TcError::DestructEmpty { .. } => 3703,
            TcError::DestructNotStruct { .. } => 3704,
            TcError::DestructFieldCount { .. } => 3705,
            TcError::StructNameInvalid { .. } => 3710,
            TcError::StructFieldNameInvalid { .. } => 3711,
            TcError::StructFieldDuplicate { .. } => 3712,
            TcError::StructFieldTypeInvalid { .. } => 3713,
            TcError::StructDbCapacity { .. } => 3714,
            TcError::PlaceSegmentEmpty { .. } => 3715,
            TcError::FieldNotFound { .. } => 3716,
            TcError::TypedLoadStoreTypeMismatch { .. } => 3717,
            TcError::FieldSizeError { .. } => 3718,
            TcError::EnumNameInvalid { .. } => 3720,
            TcError::EnumBaseTypeInvalid { .. } => 3721,
            TcError::EnumVariantNameInvalid { .. } => 3722,
            TcError::EnumVariantDuplicate { .. } => 3723,
            TcError::EnumVariantCapacityExceeded { .. } => 3724,
            TcError::EnumVariantNotFound { .. } => 3725,
            TcError::ChanSendPop { .. } => 3730,
            TcError::ChanSendType { .. } => 3731,
            TcError::ChanSendValueMismatch { .. } => 3732,
            TcError::ChanRecvPop { .. } => 3733,
            TcError::ChanRecvType { .. } => 3734,
            TcError::IsoNameInvalid { .. } => 3740,
            TcError::IsoCapacityExceeded { .. } => 3741,
            TcError::IsoDupForbidden { .. } => 3742,
            TcError::IsoDropForbidden { .. } => 3743,
            TcError::TaskRunPop { .. } => 3750,
            TcError::TaskRunNotQuot { .. } => 3751,
            TcError::TaskRunDepth { .. } => 3752,
            TcError::TaskRunModified { .. } => 3753,
            TcError::TaskSpawnPop { .. } => 3754,
            TcError::TaskSpawnSig { .. } => 3756,
            TcError::TaskSpawnType { .. } => 3757,
            TcError::CallPopQuot { .. } => 3758,
            TcError::QuoteSyntax { .. } => 3760,
            TcError::AtomTooLong { .. } => 3901,
            TcError::TypeTableFull { .. } => 3902,
            TcError::BlockTableFull { .. } => 3903,
            TcError::BlockNotFound { .. } => 3904,
            TcError::OpTableFull { .. } => 3905,
            TcError::ArenaFull { .. } => 3906,
            TcError::TooManyTypes { .. } => 3907,
            TcError::BorrowLedgerFull { .. } => 3908,
            TcError::BorrowEscape { .. } => 5020,
            TcError::BorrowAlias { .. } => 5021,
        }
    }

    #[verifier::when_used_as_spec(spec_span)]
    pub fn span(self) -> (s: Span)
        ensures
            s == self.spec_span(),
    {
        match self {
            TcError::Internal { span } => span,
            TcError::SigTypeInvalid { span } => span,
            TcError::SigTooManyInputs { span } => span,
            TcError::SigTooManyOutputs { span } => span,
            TcError::NoSig { span } => span,
            TcError::ExpectedIdent { span } => span,
            TcError::StackUnderflow { span } => span,
            TcError::TypeParseFailed { span } => span,
            TcError::BindingAlreadyDefined { span } => span,
            TcError::BindingCapacityExceeded { span } => span,
            TcError::StackOverflow { span } => span,
            TcError::WordNotFound { span } => span,
            TcError::SigStackUnderflow { span } => span,
            TcError::SigTypeMismatch { span } => span,
            TcError::OutputCountMismatch { span } => span,
            TcError::OutputTypeMismatch { span } => span,
            TcError::ReturnStackDepth { span } => span,
            TcError::ReturnTypeMismatch { span } => span,
            TcError::IfPopElse { span } => span,
            TcError::IfPopThen { span } => span,
            TcError::IfPopCond { span } => span,
            TcError::IfCondNotBool { span } => span,
            TcError::IfThenNotQuot { span } => span,
            TcError::IfElseNotQuot { span } => span,
            TcError::IfBranchDepth { span } => span,
            TcError::IfBranchContent { span } => span,
            TcError::WhilePopBody { span } => span,
            TcError::WhilePopCond { span } => span,
            TcError::WhileBodyNotQuot { span } => span,
            TcError::WhileCondNotQuot { span } => span,
            TcError::WhileCondDepth { span } => span,
            TcError::WhileCondNotBool { span } => span,
            TcError::WhileCondModifiedStack { span } => span,
            TcError::WhileBodyDepth { span } => span,
            TcError::WhileBodyModifiedStack { span } => span,
            TcError::LoopPopBody { span } => span,
            TcError::LoopBodyNotQuot { span } => span,
            TcError::LoopBodyDepth { span } => span,
            TcError::LoopBodyModifiedStack { span } => span,
            TcError::LockPopBody { span } => span,
            TcError::LockBodyNotQuot { span } => span,
            TcError::LockBodyDepth { span } => span,
            TcError::LockBodyModifiedStack { span } => span,
            TcError::QuoteWordNotFound { span } => span,
            TcError::QuoteStackUnderflow { span } => span,
            TcError::BindNotAllowed { span } => span,
            TcError::QuoteUnterminated { span } => span,
            TcError::CastParseFailed { span } => span,
            TcError::CastTypeInvalid { span } => span,
            TcError::CastPopValue { span } => span,
            TcError::CheckedCastMismatch { span } => span,
            TcError::CastMissingValue { span } => span,
            TcError::CastSubtypeMismatch { span } => span,
            TcError::BitcastOnSubtype { span } => span,
            TcError::BitcastWidthUnknown { span } => span,
            TcError::BitcastWidthMismatch { span } => span,
            TcError::CastNotAllowed { span } => span,
            TcError::ContractDepth { span } => span,
            TcError::ContractNotBool { span } => span,
            TcError::ContractModifiedInputs { span } => span,
            TcError::PlaceParseFailed { span } => span,
            TcError::MutRefToLocal { span } => span,
            TcError::ScopedLiveAtSuspend { span } => span,
            TcError::SuspendingInNonSuspendingContext { span } => span,
            TcError::ScopedLeak { span } => span,
            TcError::EmptyStackForScoped { span } => span,
            TcError::ScopedBlockUnterminated { span } => span,
            TcError::ScopedMarkerLeak { span } => span,
            TcError::ReturnWithScoped { span } => span,
            TcError::ScopeDepthExceeded { span } => span,
            TcError::SliceTypeFailed { span } => span,
            TcError::LocalNotLive { span } => span,
            TcError::ScopedTypeMismatch { span } => span,
            TcError::LockNested { span } => span,
            TcError::ArrayIndexOob { span } => span,
            TcError::IndexError { span } => span,
            TcError::ResourceNameInvalid { span } => span,
            TcError::ResourceTypeInvalid { span } => span,
            TcError::ResourceCapacityExceeded { span } => span,
            TcError::IsrCapacityExceeded { span } => span,
            TcError::MmioPlaceTooDeep { span } => span,
            TcError::MmioMapNotFound { span } => span,
            TcError::MmioRegNotFound { span } => span,
            TcError::MmioArrayIndexOob { span } => span,
            TcError::MmioArrayIndexMissing { span } => span,
            TcError::MmioArrayIndexNonArray { span } => span,
            TcError::MmioFieldNotFound { span } => span,
            TcError::MmioFieldNotAddressable { span } => span,
            TcError::MmioAccessViolation { span } => span,
            TcError::MmioReadNotAllowed { span } => span,
            TcError::MmioRegMisaligned { span } => span,
            TcError::MmioRegUnknownWidth { span } => span,
            TcError::MmioTypedTypeMismatch { span } => span,
            TcError::MmioTypedNotAllowed { span } => span,
            TcError::MmioParseFailed { span } => span,
            TcError::MmioExpectedIdent { span } => span,
            TcError::MmioFieldBitRange { span } => span,
            TcError::MmioExpectedType { span } => span,
            TcError::MmioRegTypeInvalid { span } => span,
            TcError::MmioExpectedAccess { span } => span,
            TcError::MmioInvalidAccess { span } => span,
            TcError::MmioUnexpectedEof { span } => span,
            TcError::MmioFieldNameInvalid { span } => span,
            TcError::MmioExpectedLowBit { span } => span,
            TcError::MmioBadLowBit { span } => span,
            TcError::MmioExpectedHighBit { span } => span,
            TcError::MmioBadHighBit { span } => span,
            TcError::MmioExpectedFieldType { span } => span,
            TcError::MmioFieldTypeInvalid { span } => span,
            TcError::MmioExpectedFieldAccess { span } => span,
            TcError::MmioInvalidFieldAccess { span } => span,
            TcError::MmioTypedAtomInvalid { span } => span,
            TcError::MmioTypedPopAddr { span } => span,
            TcError::MmioTypedMismatch { span } => span,
            TcError::MmioPhantomRead { span } => span,
            TcError::MmioOverWideAccess { span } => span,
            TcError::DestructBorrowMix { span } => span,
            TcError::DestructExpectedIdent { span } => span,
            TcError::DestructEmpty { span } => span,
            TcError::DestructNotStruct { span } => span,
            TcError::DestructFieldCount { span } => span,
            TcError::StructNameInvalid { span } => span,
            TcError::StructFieldNameInvalid { span } => span,
            TcError::StructFieldDuplicate { span } => span,
            TcError::StructFieldTypeInvalid { span } => span,
            TcError::StructDbCapacity { span } => span,
            TcError::PlaceSegmentEmpty { span } => span,
            TcError::FieldNotFound { span } => span,
            TcError::TypedLoadStoreTypeMismatch { span } => span,
            TcError::FieldSizeError { span } => span,
            TcError::EnumNameInvalid { span } => span,
            TcError::EnumBaseTypeInvalid { span } => span,
            TcError::EnumVariantNameInvalid { span } => span,
            TcError::EnumVariantDuplicate { span } => span,
            TcError::EnumVariantCapacityExceeded { span } => span,
            TcError::EnumVariantNotFound { span } => span,
            TcError::ChanSendPop { span } => span,
            TcError::ChanSendType { span } => span,
            TcError::ChanSendValueMismatch { span } => span,
            TcError::ChanRecvPop { span } => span,
            TcError::ChanRecvType { span } => span,
            TcError::IsoNameInvalid { span } => span,
            TcError::IsoCapacityExceeded { span } => span,
            TcError::IsoDupForbidden { span } => span,
            TcError::IsoDropForbidden { span } => span,
            TcError::TaskRunPop { span } => span,
            TcError::TaskRunNotQuot { span } => span,
            TcError::TaskRunDepth { span } => span,
            TcError::TaskRunModified { span } => span,
            TcError::TaskSpawnPop { span } => span,
            TcError::TaskSpawnSig { span } => span,
            TcError::TaskSpawnType { span } => span,
            TcError::CallPopQuot { span } => span,
            TcError::QuoteSyntax { span } => span,
            TcError::AtomTooLong { span } => span,
            TcError::TypeTableFull { span } => span,
            TcError::BlockTableFull { span } => span,
            TcError::BlockNotFound { span } => span,
            TcError::OpTableFull { span } => span,
            TcError::ArenaFull { span } => span,
            TcError::TooManyTypes { span } => span,
            TcError::BorrowLedgerFull { span } => span,
            TcError::BorrowEscape { span } => span,
            TcError::BorrowAlias { span, .. } => span,
        }
    }
}

/// How much run-time checking the generated code carries.
#[derive(Clone, Copy, Debug, PartialEq, Eq, Structural)]
pub enum ChecksMode {
    Off,
    Contracts,
    All,
}

} // verus!
