//! Code page 437, the character set of the Dwarf Fortress curses font.
//!
//! Every byte 0x01..=0xFF stands for one Unicode character; 0x00 is NUL.
//! A character that the code page cannot show is encoded as 0.

use vstd::prelude::*;

use crate::strings::chars_to_string;

verus! {

/// The character that a CP437 codepoint stands for (NUL for 0x00).
pub open spec fn spec_cp437_char(codepoint: u8) -> char {
    match codepoint {
            0u8 => '\u{0}',
            1u8 => '\u{263A}',
            2u8 => '\u{263B}',
            3u8 => '\u{2665}',
            4u8 => '\u{2666}',
            5u8 => '\u{2663}',
            6u8 => '\u{2660}',
            7u8 => '\u{2022}',
            8u8 => '\u{25D8}',
            9u8 => '\u{25CB}',
            10u8 => '\u{25D9}',
            11u8 => '\u{2642}',
            12u8 => '\u{2640}',
            13u8 => '\u{266A}',
            14u8 => '\u{266B}',
            15u8 => '\u{263C}',
            16u8 => '\u{25BA}',
            17u8 => '\u{25C4}',
            18u8 => '\u{2195}',
            19u8 => '\u{203C}',
            20u8 => '\u{B6}',
            21u8 => '\u{A7}',
            22u8 => '\u{25AC}',
            23u8 => '\u{21A8}',
            24u8 => '\u{2191}',
            25u8 => '\u{2193}',
            26u8 => '\u{2192}',
            27u8 => '\u{2190}',
            28u8 => '\u{221F}',
            29u8 => '\u{2194}',
            30u8 => '\u{25B2}',
            31u8 => '\u{25BC}',
            32u8 => '\u{20}',
            33u8 => '\u{21}',
            34u8 => '\u{22}',
            35u8 => '\u{23}',
            36u8 => '\u{24}',
            37u8 => '\u{25}',
            38u8 => '\u{26}',
            39u8 => '\u{27}',
            40u8 => '\u{28}',
            41u8 => '\u{29}',
            42u8 => '\u{2A}',
            43u8 => '\u{2B}',
            44u8 => '\u{2C}',
            45u8 => '\u{2D}',
            46u8 => '\u{2E}',
            47u8 => '\u{2F}',
            48u8 => '\u{30}',
            49u8 => '\u{31}',
            50u8 => '\u{32}',
            51u8 => '\u{33}',
            52u8 => '\u{34}',
            53u8 => '\u{35}',
            54u8 => '\u{36}',
            55u8 => '\u{37}',
            56u8 => '\u{38}',
            57u8 => '\u{39}',
            58u8 => '\u{3A}',
            59u8 => '\u{3B}',
            60u8 => '\u{3C}',
            61u8 => '\u{3D}',
            62u8 => '\u{3E}',
            63u8 => '\u{3F}',
            64u8 => '\u{40}',
            65u8 => '\u{41}',
            66u8 => '\u{42}',
            67u8 => '\u{43}',
            68u8 => '\u{44}',
            69u8 => '\u{45}',
            70u8 => '\u{46}',
            71u8 => '\u{47}',
            72u8 => '\u{48}',
            73u8 => '\u{49}',
            74u8 => '\u{4A}',
            75u8 => '\u{4B}',
            76u8 => '\u{4C}',
            77u8 => '\u{4D}',
            78u8 => '\u{4E}',
            79u8 => '\u{4F}',
            80u8 => '\u{50}',
            81u8 => '\u{51}',
            82u8 => '\u{52}',
            83u8 => '\u{53}',
            84u8 => '\u{54}',
            85u8 => '\u{55}',
            86u8 => '\u{56}',
            87u8 => '\u{57}',
            88u8 => '\u{58}',
            89u8 => '\u{59}',
            90u8 => '\u{5A}',
            91u8 => '\u{5B}',
            92u8 => '\u{5C}',
            93u8 => '\u{5D}',
            94u8 => '\u{5E}',
            95u8 => '\u{5F}',
            96u8 => '\u{60}',
            97u8 => '\u{61}',
            98u8 => '\u{62}',
            99u8 => '\u{63}',
            100u8 => '\u{64}',
            101u8 => '\u{65}',
            102u8 => '\u{66}',
            103u8 => '\u{67}',
            104u8 => '\u{68}',
            105u8 => '\u{69}',
            106u8 => '\u{6A}',
            107u8 => '\u{6B}',
            108u8 => '\u{6C}',
            109u8 => '\u{6D}',
            110u8 => '\u{6E}',
            111u8 => '\u{6F}',
            112u8 => '\u{70}',
            113u8 => '\u{71}',
            114u8 => '\u{72}',
            115u8 => '\u{73}',
            116u8 => '\u{74}',
            117u8 => '\u{75}',
            118u8 => '\u{76}',
            119u8 => '\u{77}',
            120u8 => '\u{78}',
            121u8 => '\u{79}',
            122u8 => '\u{7A}',
            123u8 => '\u{7B}',
            124u8 => '\u{7C}',
            125u8 => '\u{7D}',
            126u8 => '\u{7E}',
            127u8 => '\u{2302}',
            128u8 => '\u{C7}',
            129u8 => '\u{FC}',
            130u8 => '\u{E9}',
            131u8 => '\u{E2}',
            132u8 => '\u{E4}',
            133u8 => '\u{E0}',
            134u8 => '\u{E5}',
            135u8 => '\u{E7}',
            136u8 => '\u{EA}',
            137u8 => '\u{EB}',
            138u8 => '\u{E8}',
            139u8 => '\u{EF}',
            140u8 => '\u{EE}',
            141u8 => '\u{EC}',
            142u8 => '\u{C4}',
            143u8 => '\u{C5}',
            144u8 => '\u{C9}',
            145u8 => '\u{E6}',
            146u8 => '\u{C6}',
            147u8 => '\u{F4}',
            148u8 => '\u{F6}',
            149u8 => '\u{F2}',
            150u8 => '\u{FB}',
            151u8 => '\u{F9}',
            152u8 => '\u{FF}',
            153u8 => '\u{D6}',
            154u8 => '\u{DC}',
            155u8 => '\u{A2}',
            156u8 => '\u{A3}',
            157u8 => '\u{A5}',
            158u8 => '\u{20A7}',
            159u8 => '\u{192}',
            160u8 => '\u{E1}',
            161u8 => '\u{ED}',
            162u8 => '\u{F3}',
            163u8 => '\u{FA}',
            164u8 => '\u{F1}',
            165u8 => '\u{D1}',
            166u8 => '\u{AA}',
            167u8 => '\u{BA}',
            168u8 => '\u{BF}',
            169u8 => '\u{2310}',
            170u8 => '\u{AC}',
            171u8 => '\u{BD}',
            172u8 => '\u{BC}',
            173u8 => '\u{A1}',
            174u8 => '\u{AB}',
            175u8 => '\u{BB}',
            176u8 => '\u{2591}',
            177u8 => '\u{2592}',
            178u8 => '\u{2593}',
            179u8 => '\u{2502}',
            180u8 => '\u{2524}',
            181u8 => '\u{2561}',
            182u8 => '\u{2562}',
            183u8 => '\u{2556}',
            184u8 => '\u{2555}',
            185u8 => '\u{2563}',
            186u8 => '\u{2551}',
            187u8 => '\u{2557}',
            188u8 => '\u{255D}',
            189u8 => '\u{255C}',
            190u8 => '\u{255B}',
            191u8 => '\u{2510}',
            192u8 => '\u{2514}',
            193u8 => '\u{2534}',
            194u8 => '\u{252C}',
            195u8 => '\u{251C}',
            196u8 => '\u{2500}',
            197u8 => '\u{253C}',
            198u8 => '\u{255E}',
            199u8 => '\u{255F}',
            200u8 => '\u{255A}',
            201u8 => '\u{2554}',
            202u8 => '\u{2569}',
            203u8 => '\u{2566}',
            204u8 => '\u{2560}',
            205u8 => '\u{2550}',
            206u8 => '\u{256C}',
            207u8 => '\u{2567}',
            208u8 => '\u{2568}',
            209u8 => '\u{2564}',
            210u8 => '\u{2565}',
            211u8 => '\u{2559}',
            212u8 => '\u{2558}',
            213u8 => '\u{2552}',
            214u8 => '\u{2553}',
            215u8 => '\u{256B}',
            216u8 => '\u{256A}',
            217u8 => '\u{2518}',
            218u8 => '\u{250C}',
            219u8 => '\u{2588}',
            220u8 => '\u{2584}',
            221u8 => '\u{258C}',
            222u8 => '\u{2590}',
            223u8 => '\u{2580}',
            224u8 => '\u{3B1}',
            225u8 => '\u{DF}',
            226u8 => '\u{393}',
            227u8 => '\u{3C0}',
            228u8 => '\u{3A3}',
            229u8 => '\u{3C3}',
            230u8 => '\u{B5}',
            231u8 => '\u{3C4}',
            232u8 => '\u{3A6}',
            233u8 => '\u{398}',
            234u8 => '\u{3A9}',
            235u8 => '\u{3B4}',
            236u8 => '\u{221E}',
            237u8 => '\u{3C6}',
            238u8 => '\u{3B5}',
            239u8 => '\u{2229}',
            240u8 => '\u{2261}',
            241u8 => '\u{B1}',
            242u8 => '\u{2265}',
            243u8 => '\u{2264}',
            244u8 => '\u{2320}',
            245u8 => '\u{2321}',
            246u8 => '\u{F7}',
            247u8 => '\u{2248}',
            248u8 => '\u{B0}',
            249u8 => '\u{2219}',
            250u8 => '\u{B7}',
            251u8 => '\u{221A}',
            252u8 => '\u{207F}',
            253u8 => '\u{B2}',
            254u8 => '\u{25A0}',
            255u8 => '\u{A0}',
    }
}

/// The CP437 codepoint of a character, 0 where the code page has none.
pub open spec fn spec_cp437_codepoint(ch: char) -> u8 {
    match ch {
            '\u{263A}' => 1u8,
            '\u{263B}' => 2u8,
            '\u{2665}' => 3u8,
            '\u{2666}' => 4u8,
            '\u{2663}' => 5u8,
            '\u{2660}' => 6u8,
            '\u{2022}' => 7u8,
            '\u{25D8}' => 8u8,
            '\u{25CB}' => 9u8,
            '\u{25D9}' => 10u8,
            '\u{2642}' => 11u8,
            '\u{2640}' => 12u8,
            '\u{266A}' => 13u8,
            '\u{266B}' => 14u8,
            '\u{263C}' => 15u8,
            '\u{25BA}' => 16u8,
            '\u{25C4}' => 17u8,
            '\u{2195}' => 18u8,
            '\u{203C}' => 19u8,
            '\u{B6}' => 20u8,
            '\u{A7}' => 21u8,
            '\u{25AC}' => 22u8,
            '\u{21A8}' => 23u8,
            '\u{2191}' => 24u8,
            '\u{2193}' => 25u8,
            '\u{2192}' => 26u8,
            '\u{2190}' => 27u8,
            '\u{221F}' => 28u8,
            '\u{2194}' => 29u8,
            '\u{25B2}' => 30u8,
            '\u{25BC}' => 31u8,
            '\u{20}' => 32u8,
            '\u{21}' => 33u8,
            '\u{22}' => 34u8,
            '\u{23}' => 35u8,
            '\u{24}' => 36u8,
            '\u{25}' => 37u8,
            '\u{26}' => 38u8,
            '\u{27}' => 39u8,
            '\u{28}' => 40u8,
            '\u{29}' => 41u8,
            '\u{2A}' => 42u8,
            '\u{2B}' => 43u8,
            '\u{2C}' => 44u8,
            '\u{2D}' => 45u8,
            '\u{2E}' => 46u8,
            '\u{2F}' => 47u8,
            '\u{30}' => 48u8,
            '\u{31}' => 49u8,
            '\u{32}' => 50u8,
            '\u{33}' => 51u8,
            '\u{34}' => 52u8,
            '\u{35}' => 53u8,
            '\u{36}' => 54u8,
            '\u{37}' => 55u8,
            '\u{38}' => 56u8,
            '\u{39}' => 57u8,
            '\u{3A}' => 58u8,
            '\u{3B}' => 59u8,
            '\u{3C}' => 60u8,
            '\u{3D}' => 61u8,
            '\u{3E}' => 62u8,
            '\u{3F}' => 63u8,
            '\u{40}' => 64u8,
            '\u{41}' => 65u8,
            '\u{42}' => 66u8,
            '\u{43}' => 67u8,
            '\u{44}' => 68u8,
            '\u{45}' => 69u8,
            '\u{46}' => 70u8,
            '\u{47}' => 71u8,
            '\u{48}' => 72u8,
            '\u{49}' => 73u8,
            '\u{4A}' => 74u8,
            '\u{4B}' => 75u8,
            '\u{4C}' => 76u8,
            '\u{4D}' => 77u8,
            '\u{4E}' => 78u8,
            '\u{4F}' => 79u8,
            '\u{50}' => 80u8,
            '\u{51}' => 81u8,
            '\u{52}' => 82u8,
            '\u{53}' => 83u8,
            '\u{54}' => 84u8,
            '\u{55}' => 85u8,
            '\u{56}' => 86u8,
            '\u{57}' => 87u8,
            '\u{58}' => 88u8,
            '\u{59}' => 89u8,
            '\u{5A}' => 90u8,
            '\u{5B}' => 91u8,
            '\u{5C}' => 92u8,
            '\u{5D}' => 93u8,
            '\u{5E}' => 94u8,
            '\u{5F}' => 95u8,
            '\u{60}' => 96u8,
            '\u{61}' => 97u8,
            '\u{62}' => 98u8,
            '\u{63}' => 99u8,
            '\u{64}' => 100u8,
            '\u{65}' => 101u8,
            '\u{66}' => 102u8,
            '\u{67}' => 103u8,
            '\u{68}' => 104u8,
            '\u{69}' => 105u8,
            '\u{6A}' => 106u8,
            '\u{6B}' => 107u8,
            '\u{6C}' => 108u8,
            '\u{6D}' => 109u8,
            '\u{6E}' => 110u8,
            '\u{6F}' => 111u8,
            '\u{70}' => 112u8,
            '\u{71}' => 113u8,
            '\u{72}' => 114u8,
            '\u{73}' => 115u8,
            '\u{74}' => 116u8,
            '\u{75}' => 117u8,
            '\u{76}' => 118u8,
            '\u{77}' => 119u8,
            '\u{78}' => 120u8,
            '\u{79}' => 121u8,
            '\u{7A}' => 122u8,
            '\u{7B}' => 123u8,
            '\u{7C}' => 124u8,
            '\u{7D}' => 125u8,
            '\u{7E}' => 126u8,
            '\u{2302}' => 127u8,
            '\u{C7}' => 128u8,
            '\u{FC}' => 129u8,
            '\u{E9}' => 130u8,
            '\u{E2}' => 131u8,
            '\u{E4}' => 132u8,
            '\u{E0}' => 133u8,
            '\u{E5}' => 134u8,
            '\u{E7}' => 135u8,
            '\u{EA}' => 136u8,
            '\u{EB}' => 137u8,
            '\u{E8}' => 138u8,
            '\u{EF}' => 139u8,
            '\u{EE}' => 140u8,
            '\u{EC}' => 141u8,
            '\u{C4}' => 142u8,
            '\u{C5}' => 143u8,
            '\u{C9}' => 144u8,
            '\u{E6}' => 145u8,
            '\u{C6}' => 146u8,
            '\u{F4}' => 147u8,
            '\u{F6}' => 148u8,
            '\u{F2}' => 149u8,
            '\u{FB}' => 150u8,
            '\u{F9}' => 151u8,
            '\u{FF}' => 152u8,
            '\u{D6}' => 153u8,
            '\u{DC}' => 154u8,
            '\u{A2}' => 155u8,
            '\u{A3}' => 156u8,
            '\u{A5}' => 157u8,
            '\u{20A7}' => 158u8,
            '\u{192}' => 159u8,
            '\u{E1}' => 160u8,
            '\u{ED}' => 161u8,
            '\u{F3}' => 162u8,
            '\u{FA}' => 163u8,
            '\u{F1}' => 164u8,
            '\u{D1}' => 165u8,
            '\u{AA}' => 166u8,
            '\u{BA}' => 167u8,
            '\u{BF}' => 168u8,
            '\u{2310}' => 169u8,
            '\u{AC}' => 170u8,
            '\u{BD}' => 171u8,
            '\u{BC}' => 172u8,
            '\u{A1}' => 173u8,
            '\u{AB}' => 174u8,
            '\u{BB}' => 175u8,
            '\u{2591}' => 176u8,
            '\u{2592}' => 177u8,
            '\u{2593}' => 178u8,
            '\u{2502}' => 179u8,
            '\u{2524}' => 180u8,
            '\u{2561}' => 181u8,
            '\u{2562}' => 182u8,
            '\u{2556}' => 183u8,
            '\u{2555}' => 184u8,
            '\u{2563}' => 185u8,
            '\u{2551}' => 186u8,
            '\u{2557}' => 187u8,
            '\u{255D}' => 188u8,
            '\u{255C}' => 189u8,
            '\u{255B}' => 190u8,
            '\u{2510}' => 191u8,
            '\u{2514}' => 192u8,
            '\u{2534}' => 193u8,
            '\u{252C}' => 194u8,
            '\u{251C}' => 195u8,
            '\u{2500}' => 196u8,
            '\u{253C}' => 197u8,
            '\u{255E}' => 198u8,
            '\u{255F}' => 199u8,
            '\u{255A}' => 200u8,
            '\u{2554}' => 201u8,
            '\u{2569}' => 202u8,
            '\u{2566}' => 203u8,
            '\u{2560}' => 204u8,
            '\u{2550}' => 205u8,
            '\u{256C}' => 206u8,
            '\u{2567}' => 207u8,
            '\u{2568}' => 208u8,
            '\u{2564}' => 209u8,
            '\u{2565}' => 210u8,
            '\u{2559}' => 211u8,
            '\u{2558}' => 212u8,
            '\u{2552}' => 213u8,
            '\u{2553}' => 214u8,
            '\u{256B}' => 215u8,
            '\u{256A}' => 216u8,
            '\u{2518}' => 217u8,
            '\u{250C}' => 218u8,
            '\u{2588}' => 219u8,
            '\u{2584}' => 220u8,
            '\u{258C}' => 221u8,
            '\u{2590}' => 222u8,
            '\u{2580}' => 223u8,
            '\u{3B1}' => 224u8,
            '\u{DF}' => 225u8,
            '\u{393}' => 226u8,
            '\u{3C0}' => 227u8,
            '\u{3A3}' => 228u8,
            '\u{3C3}' => 229u8,
            '\u{B5}' => 230u8,
            '\u{3C4}' => 231u8,
            '\u{3A6}' => 232u8,
            '\u{398}' => 233u8,
            '\u{3A9}' => 234u8,
            '\u{3B4}' => 235u8,
            '\u{221E}' => 236u8,
            '\u{3C6}' => 237u8,
            '\u{3B5}' => 238u8,
            '\u{2229}' => 239u8,
            '\u{2261}' => 240u8,
            '\u{B1}' => 241u8,
            '\u{2265}' => 242u8,
            '\u{2264}' => 243u8,
            '\u{2320}' => 244u8,
            '\u{2321}' => 245u8,
            '\u{F7}' => 246u8,
            '\u{2248}' => 247u8,
            '\u{B0}' => 248u8,
            '\u{2219}' => 249u8,
            '\u{B7}' => 250u8,
            '\u{221A}' => 251u8,
            '\u{207F}' => 252u8,
            '\u{B2}' => 253u8,
            '\u{25A0}' => 254u8,
            '\u{A0}' => 255u8,
        _ => 0u8,
    }
}

/// Convert a single CP437 codepoint to its character, '\u{0}' for NUL.
pub fn cp437_codepoint_to_char(codepoint: u8) -> (ch: char)
    ensures
        ch == spec_cp437_char(codepoint),
{
    match codepoint {
            0u8 => '\u{0}',
            1u8 => '\u{263A}',
            2u8 => '\u{263B}',
            3u8 => '\u{2665}',
            4u8 => '\u{2666}',
            5u8 => '\u{2663}',
            6u8 => '\u{2660}',
            7u8 => '\u{2022}',
            8u8 => '\u{25D8}',
            9u8 => '\u{25CB}',
            10u8 => '\u{25D9}',
            11u8 => '\u{2642}',
            12u8 => '\u{2640}',
            13u8 => '\u{266A}',
            14u8 => '\u{266B}',
            15u8 => '\u{263C}',
            16u8 => '\u{25BA}',
            17u8 => '\u{25C4}',
            18u8 => '\u{2195}',
            19u8 => '\u{203C}',
            20u8 => '\u{B6}',
            21u8 => '\u{A7}',
            22u8 => '\u{25AC}',
            23u8 => '\u{21A8}',
            24u8 => '\u{2191}',
            25u8 => '\u{2193}',
            26u8 => '\u{2192}',
            27u8 => '\u{2190}',
            28u8 => '\u{221F}',
            29u8 => '\u{2194}',
            30u8 => '\u{25B2}',
            31u8 => '\u{25BC}',
            32u8 => '\u{20}',
            33u8 => '\u{21}',
            34u8 => '\u{22}',
            35u8 => '\u{23}',
            36u8 => '\u{24}',
            37u8 => '\u{25}',
            38u8 => '\u{26}',
            39u8 => '\u{27}',
            40u8 => '\u{28}',
            41u8 => '\u{29}',
            42u8 => '\u{2A}',
            43u8 => '\u{2B}',
            44u8 => '\u{2C}',
            45u8 => '\u{2D}',
            46u8 => '\u{2E}',
            47u8 => '\u{2F}',
            48u8 => '\u{30}',
            49u8 => '\u{31}',
            50u8 => '\u{32}',
            51u8 => '\u{33}',
            52u8 => '\u{34}',
            53u8 => '\u{35}',
            54u8 => '\u{36}',
            55u8 => '\u{37}',
            56u8 => '\u{38}',
            57u8 => '\u{39}',
            58u8 => '\u{3A}',
            59u8 => '\u{3B}',
            60u8 => '\u{3C}',
            61u8 => '\u{3D}',
            62u8 => '\u{3E}',
            63u8 => '\u{3F}',
            64u8 => '\u{40}',
            65u8 => '\u{41}',
            66u8 => '\u{42}',
            67u8 => '\u{43}',
            68u8 => '\u{44}',
            69u8 => '\u{45}',
            70u8 => '\u{46}',
            71u8 => '\u{47}',
            72u8 => '\u{48}',
            73u8 => '\u{49}',
            74u8 => '\u{4A}',
            75u8 => '\u{4B}',
            76u8 => '\u{4C}',
            77u8 => '\u{4D}',
            78u8 => '\u{4E}',
            79u8 => '\u{4F}',
            80u8 => '\u{50}',
            81u8 => '\u{51}',
            82u8 => '\u{52}',
            83u8 => '\u{53}',
            84u8 => '\u{54}',
            85u8 => '\u{55}',
            86u8 => '\u{56}',
            87u8 => '\u{57}',
            88u8 => '\u{58}',
            89u8 => '\u{59}',
            90u8 => '\u{5A}',
            91u8 => '\u{5B}',
            92u8 => '\u{5C}',
            93u8 => '\u{5D}',
            94u8 => '\u{5E}',
            95u8 => '\u{5F}',
            96u8 => '\u{60}',
            97u8 => '\u{61}',
            98u8 => '\u{62}',
            99u8 => '\u{63}',
            100u8 => '\u{64}',
            101u8 => '\u{65}',
            102u8 => '\u{66}',
            103u8 => '\u{67}',
            104u8 => '\u{68}',
            105u8 => '\u{69}',
            106u8 => '\u{6A}',
            107u8 => '\u{6B}',
            108u8 => '\u{6C}',
            109u8 => '\u{6D}',
            110u8 => '\u{6E}',
            111u8 => '\u{6F}',
            112u8 => '\u{70}',
            113u8 => '\u{71}',
            114u8 => '\u{72}',
            115u8 => '\u{73}',
            116u8 => '\u{74}',
            117u8 => '\u{75}',
            118u8 => '\u{76}',
            119u8 => '\u{77}',
            120u8 => '\u{78}',
            121u8 => '\u{79}',
            122u8 => '\u{7A}',
            123u8 => '\u{7B}',
            124u8 => '\u{7C}',
            125u8 => '\u{7D}',
            126u8 => '\u{7E}',
            127u8 => '\u{2302}',
            128u8 => '\u{C7}',
            129u8 => '\u{FC}',
            130u8 => '\u{E9}',
            131u8 => '\u{E2}',
            132u8 => '\u{E4}',
            133u8 => '\u{E0}',
            134u8 => '\u{E5}',
            135u8 => '\u{E7}',
            136u8 => '\u{EA}',
            137u8 => '\u{EB}',
            138u8 => '\u{E8}',
            139u8 => '\u{EF}',
            140u8 => '\u{EE}',
            141u8 => '\u{EC}',
            142u8 => '\u{C4}',
            143u8 => '\u{C5}',
            144u8 => '\u{C9}',
            145u8 => '\u{E6}',
            146u8 => '\u{C6}',
            147u8 => '\u{F4}',
            148u8 => '\u{F6}',
            149u8 => '\u{F2}',
            150u8 => '\u{FB}',
            151u8 => '\u{F9}',
            152u8 => '\u{FF}',
            153u8 => '\u{D6}',
            154u8 => '\u{DC}',
            155u8 => '\u{A2}',
            156u8 => '\u{A3}',
            157u8 => '\u{A5}',
            158u8 => '\u{20A7}',
            159u8 => '\u{192}',
            160u8 => '\u{E1}',
            161u8 => '\u{ED}',
            162u8 => '\u{F3}',
            163u8 => '\u{FA}',
            164u8 => '\u{F1}',
            165u8 => '\u{D1}',
            166u8 => '\u{AA}',
            167u8 => '\u{BA}',
            168u8 => '\u{BF}',
            169u8 => '\u{2310}',
            170u8 => '\u{AC}',
            171u8 => '\u{BD}',
            172u8 => '\u{BC}',
            173u8 => '\u{A1}',
            174u8 => '\u{AB}',
            175u8 => '\u{BB}',
            176u8 => '\u{2591}',
            177u8 => '\u{2592}',
            178u8 => '\u{2593}',
            179u8 => '\u{2502}',
            180u8 => '\u{2524}',
            181u8 => '\u{2561}',
            182u8 => '\u{2562}',
            183u8 => '\u{2556}',
            184u8 => '\u{2555}',
            185u8 => '\u{2563}',
            186u8 => '\u{2551}',
            187u8 => '\u{2557}',
            188u8 => '\u{255D}',
            189u8 => '\u{255C}',
            190u8 => '\u{255B}',
            191u8 => '\u{2510}',
            192u8 => '\u{2514}',
            193u8 => '\u{2534}',
            194u8 => '\u{252C}',
            195u8 => '\u{251C}',
            196u8 => '\u{2500}',
            197u8 => '\u{253C}',
            198u8 => '\u{255E}',
            199u8 => '\u{255F}',
            200u8 => '\u{255A}',
            201u8 => '\u{2554}',
            202u8 => '\u{2569}',
            203u8 => '\u{2566}',
            204u8 => '\u{2560}',
            205u8 => '\u{2550}',
            206u8 => '\u{256C}',
            207u8 => '\u{2567}',
            208u8 => '\u{2568}',
            209u8 => '\u{2564}',
            210u8 => '\u{2565}',
            211u8 => '\u{2559}',
            212u8 => '\u{2558}',
            213u8 => '\u{2552}',
            214u8 => '\u{2553}',
            215u8 => '\u{256B}',
            216u8 => '\u{256A}',
            217u8 => '\u{2518}',
            218u8 => '\u{250C}',
            219u8 => '\u{2588}',
            220u8 => '\u{2584}',
            221u8 => '\u{258C}',
            222u8 => '\u{2590}',
            223u8 => '\u{2580}',
            224u8 => '\u{3B1}',
            225u8 => '\u{DF}',
            226u8 => '\u{393}',
            227u8 => '\u{3C0}',
            228u8 => '\u{3A3}',
            229u8 => '\u{3C3}',
            230u8 => '\u{B5}',
            231u8 => '\u{3C4}',
            232u8 => '\u{3A6}',
            233u8 => '\u{398}',
            234u8 => '\u{3A9}',
            235u8 => '\u{3B4}',
            236u8 => '\u{221E}',
            237u8 => '\u{3C6}',
            238u8 => '\u{3B5}',
            239u8 => '\u{2229}',
            240u8 => '\u{2261}',
            241u8 => '\u{B1}',
            242u8 => '\u{2265}',
            243u8 => '\u{2264}',
            244u8 => '\u{2320}',
            245u8 => '\u{2321}',
            246u8 => '\u{F7}',
            247u8 => '\u{2248}',
            248u8 => '\u{B0}',
            249u8 => '\u{2219}',
            250u8 => '\u{B7}',
            251u8 => '\u{221A}',
            252u8 => '\u{207F}',
            253u8 => '\u{B2}',
            254u8 => '\u{25A0}',
            255u8 => '\u{A0}',
    }
}

/// Convert a character to its CP437 codepoint, 0 for not found.
pub fn char_to_cp437_codepoint(ch: char) -> (codepoint: u8)
    ensures
        codepoint == spec_cp437_codepoint(ch),
{
    match ch {
            '\u{263A}' => 1u8,
            '\u{263B}' => 2u8,
            '\u{2665}' => 3u8,
            '\u{2666}' => 4u8,
            '\u{2663}' => 5u8,
            '\u{2660}' => 6u8,
            '\u{2022}' => 7u8,
            '\u{25D8}' => 8u8,
            '\u{25CB}' => 9u8,
            '\u{25D9}' => 10u8,
            '\u{2642}' => 11u8,
            '\u{2640}' => 12u8,
            '\u{266A}' => 13u8,
            '\u{266B}' => 14u8,
            '\u{263C}' => 15u8,
            '\u{25BA}' => 16u8,
            '\u{25C4}' => 17u8,
            '\u{2195}' => 18u8,
            '\u{203C}' => 19u8,
            '\u{B6}' => 20u8,
            '\u{A7}' => 21u8,
            '\u{25AC}' => 22u8,
            '\u{21A8}' => 23u8,
            '\u{2191}' => 24u8,
            '\u{2193}' => 25u8,
            '\u{2192}' => 26u8,
            '\u{2190}' => 27u8,
            '\u{221F}' => 28u8,
            '\u{2194}' => 29u8,
            '\u{25B2}' => 30u8,
            '\u{25BC}' => 31u8,
            '\u{20}' => 32u8,
            '\u{21}' => 33u8,
            '\u{22}' => 34u8,
            '\u{23}' => 35u8,
            '\u{24}' => 36u8,
            '\u{25}' => 37u8,
            '\u{26}' => 38u8,
            '\u{27}' => 39u8,
            '\u{28}' => 40u8,
            '\u{29}' => 41u8,
            '\u{2A}' => 42u8,
            '\u{2B}' => 43u8,
            '\u{2C}' => 44u8,
            '\u{2D}' => 45u8,
            '\u{2E}' => 46u8,
            '\u{2F}' => 47u8,
            '\u{30}' => 48u8,
            '\u{31}' => 49u8,
            '\u{32}' => 50u8,
            '\u{33}' => 51u8,
            '\u{34}' => 52u8,
            '\u{35}' => 53u8,
            '\u{36}' => 54u8,
            '\u{37}' => 55u8,
            '\u{38}' => 56u8,
            '\u{39}' => 57u8,
            '\u{3A}' => 58u8,
            '\u{3B}' => 59u8,
            '\u{3C}' => 60u8,
            '\u{3D}' => 61u8,
            '\u{3E}' => 62u8,
            '\u{3F}' => 63u8,
            '\u{40}' => 64u8,
            '\u{41}' => 65u8,
            '\u{42}' => 66u8,
            '\u{43}' => 67u8,
            '\u{44}' => 68u8,
            '\u{45}' => 69u8,
            '\u{46}' => 70u8,
            '\u{47}' => 71u8,
            '\u{48}' => 72u8,
            '\u{49}' => 73u8,
            '\u{4A}' => 74u8,
            '\u{4B}' => 75u8,
            '\u{4C}' => 76u8,
            '\u{4D}' => 77u8,
            '\u{4E}' => 78u8,
            '\u{4F}' => 79u8,
            '\u{50}' => 80u8,
            '\u{51}' => 81u8,
            '\u{52}' => 82u8,
            '\u{53}' => 83u8,
            '\u{54}' => 84u8,
            '\u{55}' => 85u8,
            '\u{56}' => 86u8,
            '\u{57}' => 87u8,
            '\u{58}' => 88u8,
            '\u{59}' => 89u8,
            '\u{5A}' => 90u8,
            '\u{5B}' => 91u8,
            '\u{5C}' => 92u8,
            '\u{5D}' => 93u8,
            '\u{5E}' => 94u8,
            '\u{5F}' => 95u8,
            '\u{60}' => 96u8,
            '\u{61}' => 97u8,
            '\u{62}' => 98u8,
            '\u{63}' => 99u8,
            '\u{64}' => 100u8,
            '\u{65}' => 101u8,
            '\u{66}' => 102u8,
            '\u{67}' => 103u8,
            '\u{68}' => 104u8,
            '\u{69}' => 105u8,
            '\u{6A}' => 106u8,
            '\u{6B}' => 107u8,
            '\u{6C}' => 108u8,
            '\u{6D}' => 109u8,
            '\u{6E}' => 110u8,
            '\u{6F}' => 111u8,
            '\u{70}' => 112u8,
            '\u{71}' => 113u8,
            '\u{72}' => 114u8,
            '\u{73}' => 115u8,
            '\u{74}' => 116u8,
            '\u{75}' => 117u8,
            '\u{76}' => 118u8,
            '\u{77}' => 119u8,
            '\u{78}' => 120u8,
            '\u{79}' => 121u8,
            '\u{7A}' => 122u8,
            '\u{7B}' => 123u8,
            '\u{7C}' => 124u8,
            '\u{7D}' => 125u8,
            '\u{7E}' => 126u8,
            '\u{2302}' => 127u8,
            '\u{C7}' => 128u8,
            '\u{FC}' => 129u8,
            '\u{E9}' => 130u8,
            '\u{E2}' => 131u8,
            '\u{E4}' => 132u8,
            '\u{E0}' => 133u8,
            '\u{E5}' => 134u8,
            '\u{E7}' => 135u8,
            '\u{EA}' => 136u8,
            '\u{EB}' => 137u8,
            '\u{E8}' => 138u8,
            '\u{EF}' => 139u8,
            '\u{EE}' => 140u8,
            '\u{EC}' => 141u8,
            '\u{C4}' => 142u8,
            '\u{C5}' => 143u8,
            '\u{C9}' => 144u8,
            '\u{E6}' => 145u8,
            '\u{C6}' => 146u8,
            '\u{F4}' => 147u8,
            '\u{F6}' => 148u8,
            '\u{F2}' => 149u8,
            '\u{FB}' => 150u8,
            '\u{F9}' => 151u8,
            '\u{FF}' => 152u8,
            '\u{D6}' => 153u8,
            '\u{DC}' => 154u8,
            '\u{A2}' => 155u8,
            '\u{A3}' => 156u8,
            '\u{A5}' => 157u8,
            '\u{20A7}' => 158u8,
            '\u{192}' => 159u8,
            '\u{E1}' => 160u8,
            '\u{ED}' => 161u8,
            '\u{F3}' => 162u8,
            '\u{FA}' => 163u8,
            '\u{F1}' => 164u8,
            '\u{D1}' => 165u8,
            '\u{AA}' => 166u8,
            '\u{BA}' => 167u8,
            '\u{BF}' => 168u8,
            '\u{2310}' => 169u8,
            '\u{AC}' => 170u8,
            '\u{BD}' => 171u8,
            '\u{BC}' => 172u8,
            '\u{A1}' => 173u8,
            '\u{AB}' => 174u8,
            '\u{BB}' => 175u8,
            '\u{2591}' => 176u8,
            '\u{2592}' => 177u8,
            '\u{2593}' => 178u8,
            '\u{2502}' => 179u8,
            '\u{2524}' => 180u8,
            '\u{2561}' => 181u8,
            '\u{2562}' => 182u8,
            '\u{2556}' => 183u8,
            '\u{2555}' => 184u8,
            '\u{2563}' => 185u8,
            '\u{2551}' => 186u8,
            '\u{2557}' => 187u8,
            '\u{255D}' => 188u8,
            '\u{255C}' => 189u8,
            '\u{255B}' => 190u8,
            '\u{2510}' => 191u8,
            '\u{2514}' => 192u8,
            '\u{2534}' => 193u8,
            '\u{252C}' => 194u8,
            '\u{251C}' => 195u8,
            '\u{2500}' => 196u8,
            '\u{253C}' => 197u8,
            '\u{255E}' => 198u8,
            '\u{255F}' => 199u8,
            '\u{255A}' => 200u8,
            '\u{2554}' => 201u8,
            '\u{2569}' => 202u8,
            '\u{2566}' => 203u8,
            '\u{2560}' => 204u8,
            '\u{2550}' => 205u8,
            '\u{256C}' => 206u8,
            '\u{2567}' => 207u8,
            '\u{2568}' => 208u8,
            '\u{2564}' => 209u8,
            '\u{2565}' => 210u8,
            '\u{2559}' => 211u8,
            '\u{2558}' => 212u8,
            '\u{2552}' => 213u8,
            '\u{2553}' => 214u8,
            '\u{256B}' => 215u8,
            '\u{256A}' => 216u8,
            '\u{2518}' => 217u8,
            '\u{250C}' => 218u8,
            '\u{2588}' => 219u8,
            '\u{2584}' => 220u8,
            '\u{258C}' => 221u8,
            '\u{2590}' => 222u8,
            '\u{2580}' => 223u8,
            '\u{3B1}' => 224u8,
            '\u{DF}' => 225u8,
            '\u{393}' => 226u8,
            '\u{3C0}' => 227u8,
            '\u{3A3}' => 228u8,
            '\u{3C3}' => 229u8,
            '\u{B5}' => 230u8,
            '\u{3C4}' => 231u8,
            '\u{3A6}' => 232u8,
            '\u{398}' => 233u8,
            '\u{3A9}' => 234u8,
            '\u{3B4}' => 235u8,
            '\u{221E}' => 236u8,
            '\u{3C6}' => 237u8,
            '\u{3B5}' => 238u8,
            '\u{2229}' => 239u8,
            '\u{2261}' => 240u8,
            '\u{B1}' => 241u8,
            '\u{2265}' => 242u8,
            '\u{2264}' => 243u8,
            '\u{2320}' => 244u8,
            '\u{2321}' => 245u8,
            '\u{F7}' => 246u8,
            '\u{2248}' => 247u8,
            '\u{B0}' => 248u8,
            '\u{2219}' => 249u8,
            '\u{B7}' => 250u8,
            '\u{221A}' => 251u8,
            '\u{207F}' => 252u8,
            '\u{B2}' => 253u8,
            '\u{25A0}' => 254u8,
            '\u{A0}' => 255u8,
        _ => 0u8,
    }
}

/// Check if a character is representable in CP437.
pub fn char_is_cp437(ch: char) -> (b: bool)
    ensures
        b == (spec_cp437_codepoint(ch) != 0),
{
    char_to_cp437_codepoint(ch) != 0
}

/// Convert a string to a vector of CP437 codepoints, one per character.
pub fn string_to_cp437_codepoints(s: &str) -> (codepoints: Vec<u8>)
    ensures
        codepoints@ == s@.map_values(|ch: char| spec_cp437_codepoint(ch)),
{
    let mut codepoints: Vec<u8> = Vec::new();
    for ch in it: s.chars()
        invariant
            codepoints@ == it.seq().take(it.index() as int).map_values(
                |ch: char| spec_cp437_codepoint(ch),
            ),
            it.seq() == s@,
    {
        proof {
            assert(it.seq().take(it.index() as int + 1) =~= it.seq().take(it.index() as int).push(ch));
        }
        codepoints.push(char_to_cp437_codepoint(ch));
    }
    codepoints
}

/// Decode CP437 codepoints into a string, one character per codepoint.
pub fn cp437_codepoints_to_string(codepoints: &[u8]) -> (s: String)
    ensures
        s@ == codepoints@.map_values(|b: u8| spec_cp437_char(b)),
{
    let mut chars: Vec<char> = Vec::new();
    let mut i: usize = 0;
    while i < codepoints.len()
        invariant
            i <= codepoints@.len(),
            chars@ == codepoints@.take(i as int).map_values(|b: u8| spec_cp437_char(b)),
        decreases codepoints@.len() - i,
    {
        proof {
            assert(codepoints@.take(i as int + 1) =~= codepoints@.take(i as int).push(codepoints@[i as int]));
        }
        chars.push(cp437_codepoint_to_char(codepoints[i]));
        i += 1;
    }
    proof {
        assert(codepoints@.take(codepoints@.len() as int) =~= codepoints@);
    }
    chars_to_string(&chars)
}

/// Decoding a non-NUL codepoint and encoding the character again gives back
/// the codepoint: the code page maps its 255 printable positions to 255
/// distinct characters.
#[verifier::rlimit(100)]
pub proof fn lemma_codepoint_roundtrip(codepoint: u8)
    requires
        codepoint != 0,
    ensures
        spec_cp437_codepoint(spec_cp437_char(codepoint)) == codepoint,
{
}

/// Encoding a character that the code page can show and decoding the
/// codepoint gives back the character.
#[verifier::rlimit(100)]
pub proof fn lemma_char_roundtrip(ch: char)
    requires
        spec_cp437_codepoint(ch) != 0,
    ensures
        spec_cp437_char(spec_cp437_codepoint(ch)) == ch,
{
}

/// The characters of IBM code page 437 at 0x00..=0x1F: NUL, then the
/// graphic characters the control positions show.
pub open spec fn ibm437_low() -> Seq<char> {
    seq![
        '\u{0}', '\u{263A}', '\u{263B}', '\u{2665}', '\u{2666}', '\u{2663}', '\u{2660}', '\u{2022}', '\u{25D8}', '\u{25CB}', '\u{25D9}', '\u{2642}', '\u{2640}', '\u{266A}', '\u{266B}', '\u{263C}',
        '\u{25BA}', '\u{25C4}', '\u{2195}', '\u{203C}', '\u{B6}', '\u{A7}', '\u{25AC}', '\u{21A8}', '\u{2191}', '\u{2193}', '\u{2192}', '\u{2190}', '\u{221F}', '\u{2194}', '\u{25B2}', '\u{25BC}',
    ]
}

/// The characters of IBM code page 437 at 0x80..=0xFF, sixteen a row.
pub open spec fn ibm437_high() -> Seq<char> {
    seq![
        '\u{C7}', '\u{FC}', '\u{E9}', '\u{E2}', '\u{E4}', '\u{E0}', '\u{E5}', '\u{E7}', '\u{EA}', '\u{EB}', '\u{E8}', '\u{EF}', '\u{EE}', '\u{EC}', '\u{C4}', '\u{C5}',
        '\u{C9}', '\u{E6}', '\u{C6}', '\u{F4}', '\u{F6}', '\u{F2}', '\u{FB}', '\u{F9}', '\u{FF}', '\u{D6}', '\u{DC}', '\u{A2}', '\u{A3}', '\u{A5}', '\u{20A7}', '\u{192}',
        '\u{E1}', '\u{ED}', '\u{F3}', '\u{FA}', '\u{F1}', '\u{D1}', '\u{AA}', '\u{BA}', '\u{BF}', '\u{2310}', '\u{AC}', '\u{BD}', '\u{BC}', '\u{A1}', '\u{AB}', '\u{BB}',
        '\u{2591}', '\u{2592}', '\u{2593}', '\u{2502}', '\u{2524}', '\u{2561}', '\u{2562}', '\u{2556}', '\u{2555}', '\u{2563}', '\u{2551}', '\u{2557}', '\u{255D}', '\u{255C}', '\u{255B}', '\u{2510}',
        '\u{2514}', '\u{2534}', '\u{252C}', '\u{251C}', '\u{2500}', '\u{253C}', '\u{255E}', '\u{255F}', '\u{255A}', '\u{2554}', '\u{2569}', '\u{2566}', '\u{2560}', '\u{2550}', '\u{256C}', '\u{2567}',
        '\u{2568}', '\u{2564}', '\u{2565}', '\u{2559}', '\u{2558}', '\u{2552}', '\u{2553}', '\u{256B}', '\u{256A}', '\u{2518}', '\u{250C}', '\u{2588}', '\u{2584}', '\u{258C}', '\u{2590}', '\u{2580}',
        '\u{3B1}', '\u{DF}', '\u{393}', '\u{3C0}', '\u{3A3}', '\u{3C3}', '\u{B5}', '\u{3C4}', '\u{3A6}', '\u{398}', '\u{3A9}', '\u{3B4}', '\u{221E}', '\u{3C6}', '\u{3B5}', '\u{2229}',
        '\u{2261}', '\u{B1}', '\u{2265}', '\u{2264}', '\u{2320}', '\u{2321}', '\u{F7}', '\u{2248}', '\u{B0}', '\u{2219}', '\u{B7}', '\u{221A}', '\u{207F}', '\u{B2}', '\u{25A0}', '\u{A0}',
    ]
}

/// The code page is IBM's code page 437: printable ASCII stands for itself,
/// 0x7F is the house sign, and the other positions hold the characters IBM
/// assigned them. Encoding is its inverse on those 255 characters.
#[verifier::rlimit(100)]
pub proof fn lemma_cp437_is_ibm437()
    ensures
        forall|c: u8| c < 0x20 ==> spec_cp437_char(c) == #[trigger] ibm437_low()[c as int],
        forall|c: u8| 0x20 <= c < 0x7F ==> #[trigger] spec_cp437_char(c) == (c as char),
        spec_cp437_char(0x7Fu8) == '\u{2302}',
        forall|c: u8| 0x80 <= c ==> spec_cp437_char(c) == #[trigger] ibm437_high()[c - 0x80],
        forall|c: u8| c != 0 ==> #[trigger] spec_cp437_codepoint(spec_cp437_char(c)) == c,
{
    assert forall|c: u8| c != 0 implies #[trigger] spec_cp437_codepoint(spec_cp437_char(c)) == c by {
        lemma_codepoint_roundtrip(c);
    }
}

} // verus!
