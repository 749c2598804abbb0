//! The instruction table: for each opcode, which of its operands define or
//! name identifiers, how many words it has, and whether it only serves
//! debugging.
//!
//! Encoding and decoding both ask this one table, so both always see an
//! instruction in the same way.
use vstd::prelude::*;

verus! {

/// What an operand word of an instruction is.
#[derive(Clone, Copy, Debug, PartialEq, Eq, Structural)]
pub enum Role {
    /// The identifier that the instruction defines.
    ResultId,
    /// The identifier of the type of what the instruction defines.
    TypeId,
    /// An identifier that the instruction refers to.
    IdRef,
    /// A number with no meaning as an identifier.
    Literal,
}

/// Which identifiers an instruction defines in its first operands.
#[derive(Clone, Copy, Debug, PartialEq, Eq, Structural)]
pub enum Shape {
    /// None.
    Plain,
    /// A result identifier.
    Result,
    /// A type identifier, then a result identifier.
    TypedResult,
}

/// How many words an instruction has, its first word included.
#[derive(Clone, Copy, Debug, PartialEq, Eq, Structural)]
pub enum WordCount {
    /// Always this many.
    Fixed(u16),
    /// As many as its first word says, and at least this many.
    AtLeast(u16),
}

impl WordCount {
    /// Whether an instruction of `words` words agrees with this count.
    pub open spec fn admits(self, words: u16) -> bool {
        match self {
            WordCount::Fixed(n) => words == n,
            WordCount::AtLeast(n) => words >= n,
        }
    }

    /// Whether an instruction of `words` words agrees with this count.
    pub fn allows(&self, words: u16) -> (yes: bool)
        ensures
            yes == self.admits(words),
    {
        match self {
            WordCount::Fixed(n) => words == *n,
            WordCount::AtLeast(n) => words >= *n,
        }
    }
}

/// How the operands of an instruction are laid out: the identifiers it
/// defines, then `literals` literal words, then `refs` references to
/// identifiers, then any number of operands that all have the role `tail`.
#[derive(Clone, Copy, Debug, PartialEq, Eq, Structural)]
pub struct OperandLayout {
    /// The identifiers that the first operands define.
    pub shape: Shape,
    /// The number of literal words behind them.
    pub literals: u8,
    /// The number of references behind those.
    pub refs: u8,
    /// The role of every operand behind those.
    pub tail: Role,
    /// The number of words.
    pub words: WordCount,
    /// Whether the instruction only serves debugging, so that it may be
    /// left out without changing what the module does.
    pub debug: bool,
}

impl OperandLayout {
    /// The layout of an opcode that the table does not know: every operand
    /// is a literal.
    pub open spec fn generic() -> OperandLayout {
        OperandLayout {
            shape: Shape::Plain,
            literals: 0,
            refs: 0,
            tail: Role::Literal,
            words: WordCount::AtLeast(1),
            debug: false,
        }
    }

    /// The role of the operand at `position`, counted from 0 behind the
    /// instruction's first word.
    pub open spec fn role_at(self, position: nat) -> Role {
        let defined: nat = match self.shape {
            Shape::Plain => 0,
            Shape::Result => 1,
            Shape::TypedResult => 2,
        };
        if position < defined {
            if self.shape == Shape::TypedResult && position == 0 {
                Role::TypeId
            } else {
                Role::ResultId
            }
        } else if position < defined + self.literals {
            Role::Literal
        } else if position < defined + self.literals + self.refs {
            Role::IdRef
        } else {
            self.tail
        }
    }

    /// The layout of an opcode that the table does not know.
    pub fn fallback() -> (layout: OperandLayout)
        ensures
            layout == OperandLayout::generic(),
    {
        OperandLayout {
            shape: Shape::Plain,
            literals: 0,
            refs: 0,
            tail: Role::Literal,
            words: WordCount::AtLeast(1),
            debug: false,
        }
    }

    /// The role of the operand at `position`, counted from 0 behind the
    /// instruction's first word.
    pub fn role(&self, position: usize) -> (role: Role)
        ensures
            role == self.role_at(position as nat),
    {
        let defined: usize = match self.shape {
            Shape::Plain => 0,
            Shape::Result => 1,
            Shape::TypedResult => 2,
        };
        if position < defined {
            match self.shape {
                Shape::TypedResult => if position == 0 {
                    Role::TypeId
                } else {
                    Role::ResultId
                },
                _ => Role::ResultId,
            }
        } else if position < defined + self.literals as usize {
            Role::Literal
        } else if position < defined + self.literals as usize + self.refs as usize {
            Role::IdRef
        } else {
            self.tail
        }
    }
}

/// The number of opcodes that the table knows: those below it.
pub const KNOWN_OPCODES: usize = 367;

/// The table itself, one entry for each opcode from 0 on. An entry is
/// eight hexadecimal digits, from the left:
///
/// 1. what the first operands define: 0 nothing, 1 a result, 2 a type and
///    a result;
/// 2. the number of literal words behind them;
/// 3. the number of references behind those;
/// 4. the role of every later operand: 0 literal, 1 reference;
/// 5. 1 for an instruction that only serves debugging;
/// 6. 0 for a fixed number of words, 1 for a least number;
/// 7. and 8. that number of words.
///
/// An opcode number that the instruction set leaves free has the entry of
/// an unknown opcode.
pub const LAYOUTS: [u32; KNOWN_OPCODES] = [
    0x0000_0001,  //   0 Nop
    0x2000_0003,  //   1 Undef
    0x0000_1102,  //   2 SourceContinued
    0x0200_1103,  //   3 Source
    0x0000_1102,  //   4 SourceExtension
    0x0010_1103,  //   5 Name
    0x0010_1104,  //   6 MemberName
    0x1000_1103,  //   7 String
    0x0010_1004,  //   8 Line
    0x0000_0101,  //   9
    0x0000_0102,  //  10 Extension
    0x1000_0103,  //  11 ExtInstImport
    0x2010_0105,  //  12 ExtInst
    0x0000_0101,  //  13
    0x0200_0003,  //  14 MemoryModel
    0x0110_0104,  //  15 EntryPoint
    0x0010_0103,  //  16 ExecutionMode
    0x0100_0002,  //  17 Capability
    0x0000_0101,  //  18
    0x1000_0002,  //  19 TypeVoid
    0x1000_0002,  //  20 TypeBool
    0x1200_0004,  //  21 TypeInt
    0x1100_0003,  //  22 TypeFloat
    0x1010_0004,  //  23 TypeVector
    0x1010_0004,  //  24 TypeMatrix
    0x1010_0109,  //  25 TypeImage
    0x1000_0002,  //  26 TypeSampler
    0x1010_0003,  //  27 TypeSampledImage
    0x1020_0004,  //  28 TypeArray
    0x1010_0003,  //  29 TypeRuntimeArray
    0x1001_0102,  //  30 TypeStruct
    0x1000_0103,  //  31 TypeOpaque
    0x1110_0004,  //  32 TypePointer
    0x1011_0103,  //  33 TypeFunction
    0x1000_0002,  //  34 TypeEvent
    0x1000_0002,  //  35 TypeDeviceEvent
    0x1000_0002,  //  36 TypeReserveId
    0x1000_0002,  //  37 TypeQueue
    0x1100_0003,  //  38 TypePipe
    0x0010_0003,  //  39 TypeForwardPointer
    0x0000_0101,  //  40
    0x2000_0003,  //  41 ConstantTrue
    0x2000_0003,  //  42 ConstantFalse
    0x2000_0103,  //  43 Constant
    0x2001_0103,  //  44 ConstantComposite
    0x2300_0006,  //  45 ConstantSampler
    0x2000_0003,  //  46 ConstantNull
    0x0000_0101,  //  47
    0x2000_0003,  //  48 SpecConstantTrue
    0x2000_0003,  //  49 SpecConstantFalse
    0x2000_0103,  //  50 SpecConstant
    0x2001_0103,  //  51 SpecConstantComposite
    0x2101_0104,  //  52 SpecConstantOp
    0x0000_0101,  //  53
    0x2110_0005,  //  54 Function
    0x2000_0003,  //  55 FunctionParameter
    0x0000_0001,  //  56 FunctionEnd
    0x2011_0104,  //  57 FunctionCall
    0x0000_0101,  //  58
    0x2101_0104,  //  59 Variable
    0x2030_0006,  //  60 ImageTexelPointer
    0x2010_0104,  //  61 Load
    0x0020_0103,  //  62 Store
    0x0020_0103,  //  63 CopyMemory
    0x0030_0104,  //  64 CopyMemorySized
    0x2011_0104,  //  65 AccessChain
    0x2011_0104,  //  66 InBoundsAccessChain
    0x2021_0105,  //  67 PtrAccessChain
    0x2010_0005,  //  68 ArrayLength
    0x2010_0004,  //  69 GenericPtrMemSemantics
    0x2021_0105,  //  70 InBoundsPtrAccessChain
    0x0010_0103,  //  71 Decorate
    0x0010_0104,  //  72 MemberDecorate
    0x1000_0002,  //  73 DecorationGroup
    0x0011_0102,  //  74 GroupDecorate
    0x0010_0102,  //  75 GroupMemberDecorate
    0x0000_0101,  //  76
    0x2020_0005,  //  77 VectorExtractDynamic
    0x2030_0006,  //  78 VectorInsertDynamic
    0x2020_0105,  //  79 VectorShuffle
    0x2001_0103,  //  80 CompositeConstruct
    0x2010_0104,  //  81 CompositeExtract
    0x2020_0105,  //  82 CompositeInsert
    0x2010_0004,  //  83 CopyObject
    0x2010_0004,  //  84 Transpose
    0x0000_0101,  //  85
    0x2020_0005,  //  86 SampledImage
    0x2020_0105,  //  87 ImageSampleImplicitLod
    0x2020_0106,  //  88 ImageSampleExplicitLod
    0x2030_0106,  //  89 ImageSampleDrefImplicitLod
    0x2030_0107,  //  90 ImageSampleDrefExplicitLod
    0x2020_0105,  //  91 ImageSampleProjImplicitLod
    0x2020_0106,  //  92 ImageSampleProjExplicitLod
    0x2030_0106,  //  93 ImageSampleProjDrefImplicitLod
    0x2030_0107,  //  94 ImageSampleProjDrefExplicitLod
    0x2020_0105,  //  95 ImageFetch
    0x2030_0106,  //  96 ImageGather
    0x2030_0106,  //  97 ImageDrefGather
    0x2020_0105,  //  98 ImageRead
    0x0030_0104,  //  99 ImageWrite
    0x2010_0004,  // 100 Image
    0x2010_0004,  // 101 ImageQueryFormat
    0x2010_0004,  // 102 ImageQueryOrder
    0x2020_0005,  // 103 ImageQuerySizeLod
    0x2010_0004,  // 104 ImageQuerySize
    0x2020_0005,  // 105 ImageQueryLod
    0x2010_0004,  // 106 ImageQueryLevels
    0x2010_0004,  // 107 ImageQuerySamples
    0x0000_0101,  // 108
    0x2010_0004,  // 109 ConvertFToU
    0x2010_0004,  // 110 ConvertFToS
    0x2010_0004,  // 111 ConvertSToF
    0x2010_0004,  // 112 ConvertUToF
    0x2010_0004,  // 113 UConvert
    0x2010_0004,  // 114 SConvert
    0x2010_0004,  // 115 FConvert
    0x2010_0004,  // 116 QuantizeToF16
    0x2010_0004,  // 117 ConvertPtrToU
    0x2010_0004,  // 118 SatConvertSToU
    0x2010_0004,  // 119 SatConvertUToS
    0x2010_0004,  // 120 ConvertUToPtr
    0x2010_0004,  // 121 PtrCastToGeneric
    0x2010_0004,  // 122 GenericCastToPtr
    0x2010_0005,  // 123 GenericCastToPtrExplicit
    0x2010_0004,  // 124 Bitcast
    0x0000_0101,  // 125
    0x2010_0004,  // 126 SNegate
    0x2010_0004,  // 127 FNegate
    0x2020_0005,  // 128 IAdd
    0x2020_0005,  // 129 FAdd
    0x2020_0005,  // 130 ISub
    0x2020_0005,  // 131 FSub
    0x2020_0005,  // 132 IMul
    0x2020_0005,  // 133 FMul
    0x2020_0005,  // 134 UDiv
    0x2020_0005,  // 135 SDiv
    0x2020_0005,  // 136 FDiv
    0x2020_0005,  // 137 UMod
    0x2020_0005,  // 138 SRem
    0x2020_0005,  // 139 SMod
    0x2020_0005,  // 140 FRem
    0x2020_0005,  // 141 FMod
    0x2020_0005,  // 142 VectorTimesScalar
    0x2020_0005,  // 143 MatrixTimesScalar
    0x2020_0005,  // 144 VectorTimesMatrix
    0x2020_0005,  // 145 MatrixTimesVector
    0x2020_0005,  // 146 MatrixTimesMatrix
    0x2020_0005,  // 147 OuterProduct
    0x2020_0005,  // 148 Dot
    0x2020_0005,  // 149 IAddCarry
    0x2020_0005,  // 150 ISubBorrow
    0x2020_0005,  // 151 UMulExtended
    0x2020_0005,  // 152 SMulExtended
    0x0000_0101,  // 153
    0x2010_0004,  // 154 Any
    0x2010_0004,  // 155 All
    0x2010_0004,  // 156 IsNan
    0x2010_0004,  // 157 IsInf
    0x2010_0004,  // 158 IsFinite
    0x2010_0004,  // 159 IsNormal
    0x2010_0004,  // 160 SignBitSet
    0x2020_0005,  // 161 LessOrGreater
    0x2020_0005,  // 162 Ordered
    0x2020_0005,  // 163 Unordered
    0x2020_0005,  // 164 LogicalEqual
    0x2020_0005,  // 165 LogicalNotEqual
    0x2020_0005,  // 166 LogicalOr
    0x2020_0005,  // 167 LogicalAnd
    0x2010_0004,  // 168 LogicalNot
    0x2030_0006,  // 169 Select
    0x2020_0005,  // 170 IEqual
    0x2020_0005,  // 171 INotEqual
    0x2020_0005,  // 172 UGreaterThan
    0x2020_0005,  // 173 SGreaterThan
    0x2020_0005,  // 174 UGreaterThanEqual
    0x2020_0005,  // 175 SGreaterThanEqual
    0x2020_0005,  // 176 ULessThan
    0x2020_0005,  // 177 SLessThan
    0x2020_0005,  // 178 ULessThanEqual
    0x2020_0005,  // 179 SLessThanEqual
    0x2020_0005,  // 180 FOrdEqual
    0x2020_0005,  // 181 FUnordEqual
    0x2020_0005,  // 182 FOrdNotEqual
    0x2020_0005,  // 183 FUnordNotEqual
    0x2020_0005,  // 184 FOrdLessThan
    0x2020_0005,  // 185 FUnordLessThan
    0x2020_0005,  // 186 FOrdGreaterThan
    0x2020_0005,  // 187 FUnordGreaterThan
    0x2020_0005,  // 188 FOrdLessThanEqual
    0x2020_0005,  // 189 FUnordLessThanEqual
    0x2020_0005,  // 190 FOrdGreaterThanEqual
    0x2020_0005,  // 191 FUnordGreaterThanEqual
    0x0000_0101,  // 192
    0x0000_0101,  // 193
    0x2020_0005,  // 194 ShiftRightLogical
    0x2020_0005,  // 195 ShiftRightArithmetic
    0x2020_0005,  // 196 ShiftLeftLogical
    0x2020_0005,  // 197 BitwiseOr
    0x2020_0005,  // 198 BitwiseXor
    0x2020_0005,  // 199 BitwiseAnd
    0x2010_0004,  // 200 Not
    0x2040_0007,  // 201 BitFieldInsert
    0x2030_0006,  // 202 BitFieldSExtract
    0x2030_0006,  // 203 BitFieldUExtract
    0x2010_0004,  // 204 BitReverse
    0x2010_0004,  // 205 BitCount
    0x0000_0101,  // 206
    0x2010_0004,  // 207 DPdx
    0x2010_0004,  // 208 DPdy
    0x2010_0004,  // 209 Fwidth
    0x2010_0004,  // 210 DPdxFine
    0x2010_0004,  // 211 DPdyFine
    0x2010_0004,  // 212 FwidthFine
    0x2010_0004,  // 213 DPdxCoarse
    0x2010_0004,  // 214 DPdyCoarse
    0x2010_0004,  // 215 FwidthCoarse
    0x0000_0101,  // 216
    0x0000_0101,  // 217
    0x0000_0001,  // 218 EmitVertex
    0x0000_0001,  // 219 EndPrimitive
    0x0010_0002,  // 220 EmitStreamVertex
    0x0010_0002,  // 221 EndStreamPrimitive
    0x0000_0101,  // 222
    0x0000_0101,  // 223
    0x0030_0004,  // 224 ControlBarrier
    0x0020_0003,  // 225 MemoryBarrier
    0x0000_0101,  // 226
    0x2030_0006,  // 227 AtomicLoad
    0x0040_0005,  // 228 AtomicStore
    0x2040_0007,  // 229 AtomicExchange
    0x2060_0009,  // 230 AtomicCompareExchange
    0x2060_0009,  // 231 AtomicCompareExchangeWeak
    0x2030_0006,  // 232 AtomicIIncrement
    0x2030_0006,  // 233 AtomicIDecrement
    0x2040_0007,  // 234 AtomicIAdd
    0x2040_0007,  // 235 AtomicISub
    0x2040_0007,  // 236 AtomicSMin
    0x2040_0007,  // 237 AtomicUMin
    0x2040_0007,  // 238 AtomicSMax
    0x2040_0007,  // 239 AtomicUMax
    0x2040_0007,  // 240 AtomicAnd
    0x2040_0007,  // 241 AtomicOr
    0x2040_0007,  // 242 AtomicXor
    0x0000_0101,  // 243
    0x0000_0101,  // 244
    0x2001_0103,  // 245 Phi
    0x0020_0104,  // 246 LoopMerge
    0x0010_0003,  // 247 SelectionMerge
    0x1000_0002,  // 248 Label
    0x0010_0002,  // 249 Branch
    0x0030_0104,  // 250 BranchConditional
    0x0020_0103,  // 251 Switch
    0x0000_0001,  // 252 Kill
    0x0000_0001,  // 253 Return
    0x0010_0002,  // 254 ReturnValue
    0x0000_0001,  // 255 Unreachable
    0x0010_0003,  // 256 LifetimeStart
    0x0010_0003,  // 257 LifetimeStop
    0x0000_0101,  // 258
    0x2060_0009,  // 259 GroupAsyncCopy
    0x0030_0004,  // 260 GroupWaitEvents
    0x2020_0005,  // 261 GroupAll
    0x2020_0005,  // 262 GroupAny
    0x2030_0006,  // 263 GroupBroadcast
    0x2010_0006,  // 264 GroupIAdd
    0x2010_0006,  // 265 GroupFAdd
    0x2010_0006,  // 266 GroupFMin
    0x2010_0006,  // 267 GroupUMin
    0x2010_0006,  // 268 GroupSMin
    0x2010_0006,  // 269 GroupFMax
    0x2010_0006,  // 270 GroupUMax
    0x2010_0006,  // 271 GroupSMax
    0x0000_0101,  // 272
    0x0000_0101,  // 273
    0x2040_0007,  // 274 ReadPipe
    0x2040_0007,  // 275 WritePipe
    0x2060_0009,  // 276 ReservedReadPipe
    0x2060_0009,  // 277 ReservedWritePipe
    0x2040_0007,  // 278 ReserveReadPipePackets
    0x2040_0007,  // 279 ReserveWritePipePackets
    0x0040_0005,  // 280 CommitReadPipe
    0x0040_0005,  // 281 CommitWritePipe
    0x2010_0004,  // 282 IsValidReserveId
    0x2030_0006,  // 283 GetNumPipePackets
    0x2030_0006,  // 284 GetMaxPipePackets
    0x2050_0008,  // 285 GroupReserveReadPipePackets
    0x2050_0008,  // 286 GroupReserveWritePipePackets
    0x0050_0006,  // 287 GroupCommitReadPipe
    0x0050_0006,  // 288 GroupCommitWritePipe
    0x0000_0101,  // 289
    0x0000_0101,  // 290
    0x2040_0007,  // 291 EnqueueMarker
    0x20A1_010D,  // 292 EnqueueKernel
    0x2050_0008,  // 293 GetKernelNDrangeSubGroupCount
    0x2050_0008,  // 294 GetKernelNDrangeMaxSubGroupSize
    0x2040_0007,  // 295 GetKernelWorkGroupSize
    0x2040_0007,  // 296 GetKernelPreferredWorkGroupSizeMultiple
    0x0010_0002,  // 297 RetainEvent
    0x0010_0002,  // 298 ReleaseEvent
    0x2000_0003,  // 299 CreateUserEvent
    0x2010_0004,  // 300 IsValidEvent
    0x0020_0003,  // 301 SetUserEventStatus
    0x0030_0004,  // 302 CaptureEventProfilingInfo
    0x2000_0003,  // 303 GetDefaultQueue
    0x2030_0006,  // 304 BuildNDRange
    0x2020_0105,  // 305 ImageSparseSampleImplicitLod
    0x2020_0106,  // 306 ImageSparseSampleExplicitLod
    0x2030_0106,  // 307 ImageSparseSampleDrefImplicitLod
    0x2030_0107,  // 308 ImageSparseSampleDrefExplicitLod
    0x2020_0105,  // 309 ImageSparseSampleProjImplicitLod
    0x2020_0106,  // 310 ImageSparseSampleProjExplicitLod
    0x2030_0106,  // 311 ImageSparseSampleProjDrefImplicitLod
    0x2030_0107,  // 312 ImageSparseSampleProjDrefExplicitLod
    0x2020_0105,  // 313 ImageSparseFetch
    0x2030_0106,  // 314 ImageSparseGather
    0x2030_0106,  // 315 ImageSparseDrefGather
    0x2010_0004,  // 316 ImageSparseTexelsResident
    0x0000_1001,  // 317 NoLine
    0x2030_0006,  // 318 AtomicFlagTestAndSet
    0x0030_0004,  // 319 AtomicFlagClear
    0x2020_0105,  // 320 ImageSparseRead
    0x2010_0004,  // 321 SizeOf
    0x1000_0002,  // 322 TypePipeStorage
    0x2300_0006,  // 323 ConstantPipeStorage
    0x2010_0004,  // 324 CreatePipeFromPipeStorage
    0x2050_0008,  // 325 GetKernelLocalSizeForSubgroupCount
    0x2040_0007,  // 326 GetKernelMaxNumSubgroups
    0x1000_0002,  // 327 TypeNamedBarrier
    0x2010_0004,  // 328 NamedBarrierInitialize
    0x0030_0004,  // 329 MemoryNamedBarrier
    0x0000_1102,  // 330 ModuleProcessed
    0x0010_0103,  // 331 ExecutionModeId
    0x0010_0103,  // 332 DecorateId
    0x2010_0004,  // 333 GroupNonUniformElect
    0x2020_0005,  // 334 GroupNonUniformAll
    0x2020_0005,  // 335 GroupNonUniformAny
    0x2020_0005,  // 336 GroupNonUniformAllEqual
    0x2030_0006,  // 337 GroupNonUniformBroadcast
    0x2020_0005,  // 338 GroupNonUniformBroadcastFirst
    0x2020_0005,  // 339 GroupNonUniformBallot
    0x2020_0005,  // 340 GroupNonUniformInverseBallot
    0x2030_0006,  // 341 GroupNonUniformBallotBitExtract
    0x2010_0006,  // 342 GroupNonUniformBallotBitCount
    0x2020_0005,  // 343 GroupNonUniformBallotFindLSB
    0x2020_0005,  // 344 GroupNonUniformBallotFindMSB
    0x2030_0006,  // 345 GroupNonUniformShuffle
    0x2030_0006,  // 346 GroupNonUniformShuffleXor
    0x2030_0006,  // 347 GroupNonUniformShuffleUp
    0x2030_0006,  // 348 GroupNonUniformShuffleDown
    0x2010_0106,  // 349 GroupNonUniformIAdd
    0x2010_0106,  // 350 GroupNonUniformFAdd
    0x2010_0106,  // 351 GroupNonUniformIMul
    0x2010_0106,  // 352 GroupNonUniformFMul
    0x2010_0106,  // 353 GroupNonUniformSMin
    0x2010_0106,  // 354 GroupNonUniformUMin
    0x2010_0106,  // 355 GroupNonUniformFMin
    0x2010_0106,  // 356 GroupNonUniformSMax
    0x2010_0106,  // 357 GroupNonUniformUMax
    0x2010_0106,  // 358 GroupNonUniformFMax
    0x2010_0106,  // 359 GroupNonUniformBitwiseAnd
    0x2010_0106,  // 360 GroupNonUniformBitwiseOr
    0x2010_0106,  // 361 GroupNonUniformBitwiseXor
    0x2010_0106,  // 362 GroupNonUniformLogicalAnd
    0x2010_0106,  // 363 GroupNonUniformLogicalOr
    0x2010_0106,  // 364 GroupNonUniformLogicalXor
    0x2030_0006,  // 365 GroupNonUniformQuadBroadcast
    0x2030_0006,  // 366 GroupNonUniformQuadSwap
];

/// The layout that the table entry `entry` stands for.
pub open spec fn entry_layout(entry: u32) -> OperandLayout {
    OperandLayout {
        shape: if entry / 0x1000_0000 == 0 {
            Shape::Plain
        } else if entry / 0x1000_0000 == 1 {
            Shape::Result
        } else {
            Shape::TypedResult
        },
        literals: (entry / 0x0100_0000 % 16) as u8,
        refs: (entry / 0x0010_0000 % 16) as u8,
        tail: if entry / 0x0001_0000 % 16 == 0 {
            Role::Literal
        } else {
            Role::IdRef
        },
        words: if entry / 0x0100 % 16 == 0 {
            WordCount::Fixed((entry % 0x0100) as u16)
        } else {
            WordCount::AtLeast((entry % 0x0100) as u16)
        },
        debug: entry / 0x1000 % 16 != 0,
    }
}

/// The layout of the instructions with opcode `opcode`: what the table
/// holds for it, and the generic layout for an opcode beyond the table.
#[verifier::opaque]
pub open spec fn layout_of(opcode: u16) -> OperandLayout {
    if opcode < KNOWN_OPCODES {
        entry_layout(LAYOUTS[opcode as int])
    } else {
        OperandLayout::generic()
    }
}

/// Whether instructions with opcode `opcode` only serve debugging.
pub open spec fn is_debug(opcode: u16) -> bool {
    layout_of(opcode).debug
}

/// Takes a table entry apart.
fn unpack(entry: u32) -> (layout: OperandLayout)
    ensures
        layout == entry_layout(entry),
{
    let shape: u32 = entry / 0x1000_0000;
    OperandLayout {
        shape: if shape == 0 {
            Shape::Plain
        } else if shape == 1 {
            Shape::Result
        } else {
            Shape::TypedResult
        },
        literals: (entry / 0x0100_0000 % 16) as u8,
        refs: (entry / 0x0010_0000 % 16) as u8,
        tail: if entry / 0x0001_0000 % 16 == 0 {
            Role::Literal
        } else {
            Role::IdRef
        },
        words: if entry / 0x0100 % 16 == 0 {
            WordCount::Fixed((entry % 0x0100) as u16)
        } else {
            WordCount::AtLeast((entry % 0x0100) as u16)
        },
        debug: entry / 0x1000 % 16 != 0,
    }
}

/// The layout of the instructions with opcode `opcode`, found in one step
/// by its index in the table.
pub fn classify(opcode: u16) -> (layout: OperandLayout)
    ensures
        layout == layout_of(opcode),
        opcode >= KNOWN_OPCODES ==> layout == OperandLayout::generic(),
{
    proof {
        reveal(layout_of);
    }
    if (opcode as usize) < KNOWN_OPCODES {
        unpack(LAYOUTS[opcode as usize])
    } else {
        OperandLayout::fallback()
    }
}

/// An opcode that the table does not know has only literal operands.
pub proof fn lemma_unknown_opcode_is_literal(opcode: u16, position: nat)
    requires
        opcode >= KNOWN_OPCODES,
    ensures
        layout_of(opcode) == OperandLayout::generic(),
        layout_of(opcode).role_at(position) == Role::Literal,
        !is_debug(opcode),
{
    reveal(layout_of);
}

} // verus!
