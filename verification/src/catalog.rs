use vstd::prelude::*;

verus! {

/// Number of entries in the edge table: four sides for each of the 256 tiles.
pub const EDGE_COUNT: usize = 1024;

/// The edge table, one row per tile. Each row holds the ASCII letters of the
/// colors on the right, top, left and bottom side of the unrotated tile; the
/// letters follow the `motifs_order=jblackwood` convention of e2.bucas.name.
pub const EDGES: [u8; 1024] = [
    106, 97, 97, 114,  // tile 0: jaar
    102, 97, 106, 116,  // tile 1: fajt
    98, 97, 102, 118,  // tile 2: bafv
    102, 97, 98, 112,  // tile 3: fabp
    106, 97, 102, 101,  // tile 4: jafe
    114, 97, 106, 99,  // tile 5: rajc
    98, 97, 114, 108,  // tile 6: barl
    106, 97, 98, 117,  // tile 7: jabu
    102, 97, 106, 112,  // tile 8: fajp
    110, 97, 102, 101,  // tile 9: nafe
    106, 97, 110, 109,  // tile 10: janm
    98, 97, 106, 112,  // tile 11: bajp
    102, 97, 98, 101,  // tile 12: fabe
    98, 97, 102, 105,  // tile 13: bafi
    102, 97, 98, 115,  // tile 14: fabs
    97, 97, 102, 98,  // tile 15: aafb
    117, 114, 97, 114,  // tile 16: urar
    105, 116, 117, 111,  // tile 17: ituo
    118, 118, 105, 115,  // tile 18: vvis
    116, 112, 118, 117,  // tile 19: tpvu
    119, 101, 116, 115,  // tile 20: wets
    117, 99, 119, 103,  // tile 21: ucwg
    119, 108, 117, 111,  // tile 22: wluo
    105, 117, 119, 99,  // tile 23: iuwc
    100, 112, 105, 108,  // tile 24: dpil
    105, 101, 100, 105,  // tile 25: iedi
    111, 109, 105, 99,  // tile 26: omic
    99, 112, 111, 116,  // tile 27: cpot
    108, 101, 99, 101,  // tile 28: lece
    103, 105, 101, 111,  // tile 29: gieo
    99, 115, 103, 99,  // tile 30: csgc
    97, 98, 99, 98,  // tile 31: abcb
    105, 114, 97, 102,  // tile 32: iraf
    111, 111, 105, 116,  // tile 33: ooit
    100, 115, 111, 100,  // tile 34: dsod
    100, 117, 100, 109,  // tile 35: dudm
    103, 115, 100, 103,  // tile 36: gsdg
    100, 108, 103, 100,  // tile 37: dlgd
    112, 111, 100, 100,  // tile 38: podd
    108, 99, 112, 117,  // tile 39: lcpu
    109, 108, 108, 119,  // tile 40: mllw
    109, 105, 109, 101,  // tile 41: mime
    99, 105, 119, 115,  // tile 42: ciws
    116, 116, 99, 112,  // tile 43: ttcp
    104, 101, 116, 117,  // tile 44: hetu
    116, 111, 104, 118,  // tile 45: tohv
    119, 99, 116, 101,  // tile 46: wcte
    97, 98, 118, 106,  // tile 47: abvj
    116, 102, 97, 114,  // tile 48: tfar
    117, 116, 116, 116,  // tile 49: uttt
    99, 100, 117, 104,  // tile 50: cduh
    115, 109, 99, 116,  // tile 51: smct
    118, 103, 115, 118,  // tile 52: vgsv
    119, 100, 118, 118,  // tile 53: wdvv
    119, 100, 119, 118,  // tile 54: wdwv
    104, 117, 119, 101,  // tile 55: huwe
    108, 119, 104, 117,  // tile 56: lwhu
    100, 101, 108, 118,  // tile 57: delv
    109, 115, 100, 115,  // tile 58: msds
    116, 112, 109, 101,  // tile 59: tpme
    112, 117, 116, 119,  // tile 60: putw
    118, 118, 99, 100,  // tile 61: vvcd
    112, 101, 109, 101,  // tile 62: peme
    97, 106, 112, 114,  // tile 63: ajpr
    105, 114, 97, 106,  // tile 64: iraj
    100, 116, 105, 111,  // tile 65: dtio
    108, 104, 100, 116,  // tile 66: lhdt
    109, 116, 108, 111,  // tile 67: mtlo
    119, 118, 109, 111,  // tile 68: wvmo
    99, 118, 119, 119,  // tile 69: cvww
    99, 118, 101, 105,  // tile 70: cvei
    115, 101, 99, 115,  // tile 71: secs
    104, 117, 115, 115,  // tile 72: huss
    116, 118, 104, 105,  // tile 73: tvhi
    104, 115, 116, 108,  // tile 74: hstl
    116, 101, 104, 101,  // tile 75: tehe
    100, 119, 116, 108,  // tile 76: dwtl
    104, 100, 100, 99,  // tile 77: hddc
    105, 101, 104, 103,  // tile 78: iehg
    97, 114, 99, 114,  // tile 79: arcr
    104, 106, 97, 106,  // tile 80: hjaj
    101, 111, 104, 108,  // tile 81: eohl
    105, 116, 101, 108,  // tile 82: itel
    108, 111, 105, 105,  // tile 83: loii
    115, 111, 108, 99,  // tile 84: solc
    99, 119, 115, 115,  // tile 85: cwss
    116, 105, 99, 112,  // tile 86: ticp
    99, 115, 116, 112,  // tile 87: cstp
    99, 115, 99, 105,  // tile 88: csci
    108, 105, 99, 109,  // tile 89: licm
    115, 108, 108, 104,  // tile 90: sllh
    104, 101, 115, 104,  // tile 91: hesh
    103, 108, 104, 118,  // tile 92: glhv
    119, 99, 103, 118,  // tile 93: wcgv
    112, 112, 119, 118,  // tile 94: ppwv
    97, 114, 112, 102,  // tile 95: arpf
    109, 106, 97, 98,  // tile 96: mjab
    104, 108, 109, 109,  // tile 97: hlmm
    108, 108, 104, 117,  // tile 98: llhu
    109, 105, 108, 117,  // tile 99: milu
    109, 99, 109, 105,  // tile 100: mcmi
    103, 115, 109, 103,  // tile 101: gsmg
    112, 112, 103, 112,  // tile 102: ppgp
    109, 112, 112, 104,  // tile 103: mpph
    111, 105, 109, 118,  // tile 104: oimv
    119, 109, 111, 112,  // tile 105: wmop
    115, 104, 119, 101,  // tile 106: shwe
    119, 104, 115, 113,  // tile 107: whsq
    119, 118, 119, 105,  // tile 108: wvwi
    111, 118, 119, 118,  // tile 109: ovwv
    113, 118, 111, 100,  // tile 110: qvod
    97, 102, 113, 102,  // tile 111: afqf
    103, 98, 97, 98,  // tile 112: gbab
    104, 109, 103, 116,  // tile 113: hmgt
    113, 117, 104, 103,  // tile 114: quhg
    99, 117, 113, 109,  // tile 115: cuqm
    116, 105, 99, 101,  // tile 116: tice
    108, 103, 116, 115,  // tile 117: lgts
    101, 112, 108, 99,  // tile 118: eplc
    109, 104, 101, 115,  // tile 119: mhes
    108, 118, 109, 111,  // tile 120: lvmo
    103, 112, 108, 116,  // tile 121: gplt
    104, 101, 103, 118,  // tile 122: hegv
    116, 113, 104, 111,  // tile 123: tqho
    101, 105, 116, 118,  // tile 124: eitv
    112, 118, 101, 109,  // tile 125: pvem
    117, 100, 112, 116,  // tile 126: udpt
    97, 102, 117, 102,  // tile 127: afuf
    104, 98, 97, 102,  // tile 128: hbaf
    112, 116, 104, 108,  // tile 129: pthl
    105, 103, 112, 105,  // tile 130: igpi
    113, 109, 105, 103,  // tile 131: qmig
    109, 101, 113, 100,  // tile 132: meqd
    100, 115, 109, 112,  // tile 133: dsmp
    108, 99, 100, 105,  // tile 134: lcdi
    103, 115, 108, 103,  // tile 135: gslg
    100, 111, 103, 101,  // tile 136: doge
    111, 116, 100, 104,  // tile 137: otdh
    111, 118, 111, 104,  // tile 138: ovoh
    99, 111, 111, 115,  // tile 139: coos
    99, 118, 99, 117,  // tile 140: cvcu
    103, 109, 99, 111,  // tile 141: gmco
    105, 116, 103, 107,  // tile 142: itgk
    97, 102, 105, 102,  // tile 143: afif
    108, 102, 97, 110,  // tile 144: lfan
    113, 108, 108, 112,  // tile 145: qllp
    108, 105, 113, 117,  // tile 146: liqu
    104, 103, 108, 118,  // tile 147: hglv
    100, 100, 104, 119,  // tile 148: ddhw
    100, 112, 100, 113,  // tile 149: dpdq
    107, 105, 100, 103,  // tile 150: kidg
    101, 103, 107, 112,  // tile 151: egkp
    119, 101, 101, 105,  // tile 152: weei
    111, 104, 119, 100,  // tile 153: ohwd
    99, 104, 111, 99,  // tile 154: choc
    117, 115, 99, 103,  // tile 155: uscg
    117, 117, 117, 111,  // tile 156: uuuo
    101, 111, 117, 103,  // tile 157: eoug
    119, 107, 101, 108,  // tile 158: wkel
    97, 102, 119, 114,  // tile 159: afwr
    113, 110, 97, 110,  // tile 160: qnan
    100, 112, 113, 104,  // tile 161: dpqh
    116, 117, 100, 107,  // tile 162: tudk
    107, 118, 116, 113,  // tile 163: kvtq
    101, 119, 107, 100,  // tile 164: ewkd
    115, 113, 101, 119,  // tile 165: sqew
    112, 103, 115, 103,  // tile 166: pgsg
    117, 112, 112, 111,  // tile 167: uppo
    104, 105, 117, 112,  // tile 168: hiup
    113, 100, 104, 99,  // tile 169: qdhc
    117, 99, 113, 101,  // tile 170: ucqe
    113, 103, 117, 107,  // tile 171: qguk
    117, 111, 113, 115,  // tile 172: uoqs
    112, 103, 117, 109,  // tile 173: pgum
    115, 108, 112, 119,  // tile 174: slpw
    97, 114, 115, 114,  // tile 175: arsr
    99, 110, 97, 110,  // tile 176: cnan
    113, 104, 99, 118,  // tile 177: qhcv
    119, 107, 113, 111,  // tile 178: wkqo
    119, 113, 119, 117,  // tile 179: wqwu
    109, 100, 119, 101,  // tile 180: mdwe
    118, 119, 109, 100,  // tile 181: vwmd
    116, 103, 118, 116,  // tile 182: tgvt
    118, 111, 116, 109,  // tile 183: votm
    107, 112, 118, 105,  // tile 184: kpvi
    115, 99, 107, 108,  // tile 185: sckl
    112, 101, 115, 107,  // tile 186: pesk
    117, 107, 112, 117,  // tile 187: ukpu
    113, 115, 117, 103,  // tile 188: qsug
    115, 109, 113, 103,  // tile 189: smqg
    115, 119, 115, 100,  // tile 190: swsd
    97, 114, 115, 106,  // tile 191: arsj
    104, 110, 97, 102,  // tile 192: hnaf
    113, 118, 104, 119,  // tile 193: qvhw
    103, 111, 113, 107,  // tile 194: goqk
    107, 117, 103, 118,  // tile 195: kugv
    111, 101, 107, 119,  // tile 196: oekw
    101, 100, 111, 115,  // tile 197: edos
    104, 116, 101, 113,  // tile 198: hteq
    107, 109, 104, 108,  // tile 199: kmhl
    109, 105, 107, 119,  // tile 200: mikw
    107, 108, 109, 108,  // tile 201: klml
    113, 107, 107, 116,  // tile 202: qkkt
    105, 117, 113, 107,  // tile 203: iuqk
    115, 103, 105, 117,  // tile 204: sgiu
    116, 103, 115, 118,  // tile 205: tgsv
    118, 100, 116, 107,  // tile 206: vdtk
    97, 106, 118, 110,  // tile 207: ajvn
    100, 102, 97, 110,  // tile 208: dfan
    108, 119, 100, 113,  // tile 209: lwdq
    103, 107, 108, 113,  // tile 210: gklq
    108, 118, 103, 113,  // tile 211: lvgq
    113, 119, 108, 107,  // tile 212: qwlk
    117, 115, 113, 104,  // tile 213: usqh
    118, 113, 117, 113,  // tile 214: vquq
    105, 108, 118, 109,  // tile 215: ilvm
    107, 119, 105, 112,  // tile 216: kwip
    111, 108, 107, 101,  // tile 217: olke
    107, 116, 111, 117,  // tile 218: ktou
    100, 107, 107, 99,  // tile 219: dkkc
    113, 117, 100, 107,  // tile 220: qudk
    112, 118, 113, 117,  // tile 221: pvqu
    111, 107, 112, 109,  // tile 222: okpm
    97, 110, 111, 106,  // tile 223: anoj
    103, 110, 97, 98,  // tile 224: gnab
    104, 113, 103, 113,  // tile 225: hqgq
    109, 113, 104, 107,  // tile 226: mqhk
    107, 113, 109, 107,  // tile 227: kqmk
    119, 107, 107, 103,  // tile 228: wkkg
    111, 104, 119, 113,  // tile 229: ohwq
    118, 113, 111, 105,  // tile 230: vqoi
    111, 109, 118, 107,  // tile 231: omvk
    109, 112, 111, 107,  // tile 232: mpok
    113, 101, 109, 116,  // tile 233: qemt
    109, 117, 113, 105,  // tile 234: muqi
    100, 99, 109, 104,  // tile 235: dcmh
    113, 107, 100, 101,  // tile 236: qkde
    107, 117, 113, 119,  // tile 237: kuqw
    112, 109, 107, 107,  // tile 238: pmkk
    97, 106, 112, 106,  // tile 239: ajpj
    114, 98, 97, 97,  // tile 240: rbaa
    110, 113, 114, 97,  // tile 241: nqra
    106, 107, 110, 97,  // tile 242: jkna
    98, 107, 106, 97,  // tile 243: bkja
    110, 103, 98, 97,  // tile 244: ngba
    98, 113, 110, 97,  // tile 245: bqna
    110, 105, 98, 97,  // tile 246: niba
    98, 107, 110, 97,  // tile 247: bkna
    106, 107, 98, 97,  // tile 248: jkba
    110, 116, 106, 97,  // tile 249: ntja
    114, 105, 110, 97,  // tile 250: rina
    110, 104, 114, 97,  // tile 251: nhra
    110, 101, 110, 97,  // tile 252: nena
    114, 119, 110, 97,  // tile 253: rwna
    114, 107, 114, 97,  // tile 254: rkra
    97, 106, 114, 97,  // tile 255: ajra
];

/// The letter stored at `index` of the edge table.
pub open spec fn edge_letter(index: int) -> u8 {
    EDGES[index]
}

/// Reads the letter stored at `index` of the edge table.
pub fn read_edge_letter(index: usize) -> (letter: u8)
    requires
        index < EDGE_COUNT,
    ensures
        letter == edge_letter(index as int),
{
    EDGES[index]
}

/// Whether the side numbered `side` of the tile numbered `tile` lies on the
/// rim of a board of 16 by 16 on which the tiles lie row by row in the order
/// of the catalog. Sides are numbered right, top, left, bottom.
pub open spec fn on_rim(tile: int, side: int) -> bool {
    if side == 0 {
        tile % 16 == 15
    } else if side == 1 {
        tile / 16 == 0
    } else if side == 2 {
        tile % 16 == 0
    } else {
        tile / 16 == 15
    }
}

/// The first quarter of the edge table, entry by entry.
proof fn lemma_first_quarter(index: int)
    requires
        0 <= index < 256,
    ensures
        97 <= edge_letter(index) <= 119,
        (edge_letter(index) == 97) == on_rim(index / 4, index % 4),
{
}

/// The second quarter of the edge table, entry by entry.
proof fn lemma_second_quarter(index: int)
    requires
        256 <= index < 512,
    ensures
        97 <= edge_letter(index) <= 119,
        (edge_letter(index) == 97) == on_rim(index / 4, index % 4),
{
}

/// The third quarter of the edge table, entry by entry.
proof fn lemma_third_quarter(index: int)
    requires
        512 <= index < 768,
    ensures
        97 <= edge_letter(index) <= 119,
        (edge_letter(index) == 97) == on_rim(index / 4, index % 4),
{
}

/// The last quarter of the edge table, entry by entry.
proof fn lemma_last_quarter(index: int)
    requires
        768 <= index < 1024,
    ensures
        97 <= edge_letter(index) <= 119,
        (edge_letter(index) == 97) == on_rim(index / 4, index % 4),
{
}

/// Every entry of the edge table is the letter of a color, and it is the
/// letter of the exterior exactly where the side lies on the rim.
pub proof fn lemma_exterior_lies_on_the_rim(index: int)
    requires
        0 <= index < 1024,
    ensures
        97 <= edge_letter(index) <= 119,
        (edge_letter(index) == 97) == on_rim(index / 4, index % 4),
{
    if index < 256 {
        lemma_first_quarter(index);
    } else if index < 512 {
        lemma_second_quarter(index);
    } else if index < 768 {
        lemma_third_quarter(index);
    } else {
        lemma_last_quarter(index);
    }
}

} // verus!
