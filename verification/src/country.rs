//! ISO 3166-1 country codes: alpha-2 codes and their numeric codes.
use vstd::prelude::*;

use crate::text::{decimal, decimal_chars};

verus! {

/// Numeric ISO 3166-1 code of the alpha-2 code `a b` (upper case).
#[verifier::opaque]
pub open spec fn iso_numeric(a: char, b: char) -> Option<u16> {
    match (a, b) {
        ('A', 'F') => Some(4u16),
        ('A', 'X') => Some(248u16),
        ('A', 'L') => Some(8u16),
        ('D', 'Z') => Some(12u16),
        ('A', 'S') => Some(16u16),
        ('A', 'D') => Some(20u16),
        ('A', 'O') => Some(24u16),
        ('A', 'I') => Some(660u16),
        ('A', 'Q') => Some(10u16),
        ('A', 'G') => Some(28u16),
        ('A', 'R') => Some(32u16),
        ('A', 'M') => Some(51u16),
        ('A', 'W') => Some(533u16),
        ('A', 'U') => Some(36u16),
        ('A', 'T') => Some(40u16),
        ('A', 'Z') => Some(31u16),
        ('B', 'S') => Some(44u16),
        ('B', 'H') => Some(48u16),
        ('B', 'D') => Some(50u16),
        ('B', 'B') => Some(52u16),
        ('B', 'Y') => Some(112u16),
        ('B', 'E') => Some(56u16),
        ('B', 'Z') => Some(84u16),
        ('B', 'J') => Some(204u16),
        ('B', 'M') => Some(60u16),
        ('B', 'T') => Some(64u16),
        ('B', 'O') => Some(68u16),
        ('B', 'Q') => Some(535u16),
        ('B', 'A') => Some(70u16),
        ('B', 'W') => Some(72u16),
        ('B', 'V') => Some(74u16),
        ('B', 'R') => Some(76u16),
        ('I', 'O') => Some(86u16),
        ('B', 'N') => Some(96u16),
        ('B', 'G') => Some(100u16),
        ('B', 'F') => Some(854u16),
        ('B', 'I') => Some(108u16),
        ('C', 'V') => Some(132u16),
        ('K', 'H') => Some(116u16),
        ('C', 'M') => Some(120u16),
        ('C', 'A') => Some(124u16),
        ('K', 'Y') => Some(136u16),
        ('C', 'F') => Some(140u16),
        ('T', 'D') => Some(148u16),
        ('C', 'L') => Some(152u16),
        ('C', 'N') => Some(156u16),
        ('C', 'X') => Some(162u16),
        ('C', 'C') => Some(166u16),
        ('C', 'O') => Some(170u16),
        ('K', 'M') => Some(174u16),
        ('C', 'G') => Some(178u16),
        ('C', 'D') => Some(180u16),
        ('C', 'K') => Some(184u16),
        ('C', 'R') => Some(188u16),
        ('C', 'I') => Some(384u16),
        ('H', 'R') => Some(191u16),
        ('C', 'U') => Some(192u16),
        ('C', 'W') => Some(531u16),
        ('C', 'Y') => Some(196u16),
        ('C', 'Z') => Some(203u16),
        ('D', 'K') => Some(208u16),
        ('D', 'J') => Some(262u16),
        ('D', 'M') => Some(212u16),
        ('D', 'O') => Some(214u16),
        ('E', 'C') => Some(218u16),
        ('E', 'G') => Some(818u16),
        ('S', 'V') => Some(222u16),
        ('G', 'Q') => Some(226u16),
        ('E', 'R') => Some(232u16),
        ('E', 'E') => Some(233u16),
        ('S', 'Z') => Some(748u16),
        ('E', 'T') => Some(231u16),
        ('F', 'K') => Some(238u16),
        ('F', 'O') => Some(234u16),
        ('F', 'J') => Some(242u16),
        ('F', 'I') => Some(246u16),
        ('F', 'R') => Some(250u16),
        ('G', 'F') => Some(254u16),
        ('P', 'F') => Some(258u16),
        ('T', 'F') => Some(260u16),
        ('G', 'A') => Some(266u16),
        ('G', 'M') => Some(270u16),
        ('G', 'E') => Some(268u16),
        ('D', 'E') => Some(276u16),
        ('G', 'H') => Some(288u16),
        ('G', 'I') => Some(292u16),
        ('G', 'R') => Some(300u16),
        ('G', 'L') => Some(304u16),
        ('G', 'D') => Some(308u16),
        ('G', 'P') => Some(312u16),
        ('G', 'U') => Some(316u16),
        ('G', 'T') => Some(320u16),
        ('G', 'G') => Some(831u16),
        ('G', 'N') => Some(324u16),
        ('G', 'W') => Some(624u16),
        ('G', 'Y') => Some(328u16),
        ('H', 'T') => Some(332u16),
        ('H', 'M') => Some(334u16),
        ('V', 'A') => Some(336u16),
        ('H', 'N') => Some(340u16),
        ('H', 'K') => Some(344u16),
        ('H', 'U') => Some(348u16),
        ('I', 'S') => Some(352u16),
        ('I', 'N') => Some(356u16),
        ('I', 'D') => Some(360u16),
        ('I', 'R') => Some(364u16),
        ('I', 'Q') => Some(368u16),
        ('I', 'E') => Some(372u16),
        ('I', 'M') => Some(833u16),
        ('I', 'L') => Some(376u16),
        ('I', 'T') => Some(380u16),
        ('J', 'M') => Some(388u16),
        ('J', 'P') => Some(392u16),
        ('J', 'E') => Some(832u16),
        ('J', 'O') => Some(400u16),
        ('K', 'Z') => Some(398u16),
        ('K', 'E') => Some(404u16),
        ('K', 'I') => Some(296u16),
        ('K', 'P') => Some(408u16),
        ('K', 'R') => Some(410u16),
        ('K', 'W') => Some(414u16),
        ('K', 'G') => Some(417u16),
        ('L', 'A') => Some(418u16),
        ('L', 'V') => Some(428u16),
        ('L', 'B') => Some(422u16),
        ('L', 'S') => Some(426u16),
        ('L', 'R') => Some(430u16),
        ('L', 'Y') => Some(434u16),
        ('L', 'I') => Some(438u16),
        ('L', 'T') => Some(440u16),
        ('L', 'U') => Some(442u16),
        ('M', 'O') => Some(446u16),
        ('M', 'G') => Some(450u16),
        ('M', 'W') => Some(454u16),
        ('M', 'Y') => Some(458u16),
        ('M', 'V') => Some(462u16),
        ('M', 'L') => Some(466u16),
        ('M', 'T') => Some(470u16),
        ('M', 'H') => Some(584u16),
        ('M', 'Q') => Some(474u16),
        ('M', 'R') => Some(478u16),
        ('M', 'U') => Some(480u16),
        ('Y', 'T') => Some(175u16),
        ('M', 'X') => Some(484u16),
        ('F', 'M') => Some(583u16),
        ('M', 'D') => Some(498u16),
        ('M', 'C') => Some(492u16),
        ('M', 'N') => Some(496u16),
        ('M', 'E') => Some(499u16),
        ('M', 'S') => Some(500u16),
        ('M', 'A') => Some(504u16),
        ('M', 'Z') => Some(508u16),
        ('M', 'M') => Some(104u16),
        ('N', 'A') => Some(516u16),
        ('N', 'R') => Some(520u16),
        ('N', 'P') => Some(524u16),
        ('N', 'L') => Some(528u16),
        ('N', 'C') => Some(540u16),
        ('N', 'Z') => Some(554u16),
        ('N', 'I') => Some(558u16),
        ('N', 'E') => Some(562u16),
        ('N', 'G') => Some(566u16),
        ('N', 'U') => Some(570u16),
        ('N', 'F') => Some(574u16),
        ('M', 'K') => Some(807u16),
        ('M', 'P') => Some(580u16),
        ('N', 'O') => Some(578u16),
        ('O', 'M') => Some(512u16),
        ('P', 'K') => Some(586u16),
        ('P', 'W') => Some(585u16),
        ('P', 'S') => Some(275u16),
        ('P', 'A') => Some(591u16),
        ('P', 'G') => Some(598u16),
        ('P', 'Y') => Some(600u16),
        ('P', 'E') => Some(604u16),
        ('P', 'H') => Some(608u16),
        ('P', 'N') => Some(612u16),
        ('P', 'L') => Some(616u16),
        ('P', 'T') => Some(620u16),
        ('P', 'R') => Some(630u16),
        ('Q', 'A') => Some(634u16),
        ('R', 'E') => Some(638u16),
        ('R', 'O') => Some(642u16),
        ('R', 'U') => Some(643u16),
        ('R', 'W') => Some(646u16),
        ('B', 'L') => Some(652u16),
        ('S', 'H') => Some(654u16),
        ('K', 'N') => Some(659u16),
        ('L', 'C') => Some(662u16),
        ('M', 'F') => Some(663u16),
        ('P', 'M') => Some(666u16),
        ('V', 'C') => Some(670u16),
        ('W', 'S') => Some(882u16),
        ('S', 'M') => Some(674u16),
        ('S', 'T') => Some(678u16),
        ('S', 'A') => Some(682u16),
        ('S', 'N') => Some(686u16),
        ('R', 'S') => Some(688u16),
        ('S', 'C') => Some(690u16),
        ('S', 'L') => Some(694u16),
        ('S', 'G') => Some(702u16),
        ('S', 'X') => Some(534u16),
        ('S', 'K') => Some(703u16),
        ('S', 'I') => Some(705u16),
        ('S', 'B') => Some(90u16),
        ('S', 'O') => Some(706u16),
        ('Z', 'A') => Some(710u16),
        ('G', 'S') => Some(239u16),
        ('S', 'S') => Some(728u16),
        ('E', 'S') => Some(724u16),
        ('L', 'K') => Some(144u16),
        ('S', 'D') => Some(729u16),
        ('S', 'R') => Some(740u16),
        ('S', 'J') => Some(744u16),
        ('S', 'E') => Some(752u16),
        ('C', 'H') => Some(756u16),
        ('S', 'Y') => Some(760u16),
        ('T', 'W') => Some(158u16),
        ('T', 'J') => Some(762u16),
        ('T', 'Z') => Some(834u16),
        ('T', 'H') => Some(764u16),
        ('T', 'L') => Some(626u16),
        ('T', 'G') => Some(768u16),
        ('T', 'K') => Some(772u16),
        ('T', 'O') => Some(776u16),
        ('T', 'T') => Some(780u16),
        ('T', 'N') => Some(788u16),
        ('T', 'R') => Some(792u16),
        ('T', 'M') => Some(795u16),
        ('T', 'C') => Some(796u16),
        ('T', 'V') => Some(798u16),
        ('U', 'G') => Some(800u16),
        ('U', 'A') => Some(804u16),
        ('A', 'E') => Some(784u16),
        ('G', 'B') => Some(826u16),
        ('U', 'S') => Some(840u16),
        ('U', 'M') => Some(581u16),
        ('U', 'Y') => Some(858u16),
        ('U', 'Z') => Some(860u16),
        ('V', 'U') => Some(548u16),
        ('V', 'E') => Some(862u16),
        ('V', 'N') => Some(704u16),
        ('V', 'G') => Some(92u16),
        ('V', 'I') => Some(850u16),
        ('W', 'F') => Some(876u16),
        ('E', 'H') => Some(732u16),
        ('Y', 'E') => Some(887u16),
        ('Z', 'M') => Some(894u16),
        ('Z', 'W') => Some(716u16),
        _ => None,
    }
}

/// Alpha-2 ISO 3166-1 code with the numeric code `n`.
#[verifier::opaque]
pub open spec fn iso_alpha2(n: u16) -> Option<(char, char)> {
    match n {
        4 => Some(('A', 'F')),
        8 => Some(('A', 'L')),
        10 => Some(('A', 'Q')),
        12 => Some(('D', 'Z')),
        16 => Some(('A', 'S')),
        20 => Some(('A', 'D')),
        24 => Some(('A', 'O')),
        28 => Some(('A', 'G')),
        31 => Some(('A', 'Z')),
        32 => Some(('A', 'R')),
        36 => Some(('A', 'U')),
        40 => Some(('A', 'T')),
        44 => Some(('B', 'S')),
        48 => Some(('B', 'H')),
        50 => Some(('B', 'D')),
        51 => Some(('A', 'M')),
        52 => Some(('B', 'B')),
        56 => Some(('B', 'E')),
        60 => Some(('B', 'M')),
        64 => Some(('B', 'T')),
        68 => Some(('B', 'O')),
        70 => Some(('B', 'A')),
        72 => Some(('B', 'W')),
        74 => Some(('B', 'V')),
        76 => Some(('B', 'R')),
        84 => Some(('B', 'Z')),
        86 => Some(('I', 'O')),
        90 => Some(('S', 'B')),
        92 => Some(('V', 'G')),
        96 => Some(('B', 'N')),
        100 => Some(('B', 'G')),
        104 => Some(('M', 'M')),
        108 => Some(('B', 'I')),
        112 => Some(('B', 'Y')),
        116 => Some(('K', 'H')),
        120 => Some(('C', 'M')),
        124 => Some(('C', 'A')),
        132 => Some(('C', 'V')),
        136 => Some(('K', 'Y')),
        140 => Some(('C', 'F')),
        144 => Some(('L', 'K')),
        148 => Some(('T', 'D')),
        152 => Some(('C', 'L')),
        156 => Some(('C', 'N')),
        158 => Some(('T', 'W')),
        162 => Some(('C', 'X')),
        166 => Some(('C', 'C')),
        170 => Some(('C', 'O')),
        174 => Some(('K', 'M')),
        175 => Some(('Y', 'T')),
        178 => Some(('C', 'G')),
        180 => Some(('C', 'D')),
        184 => Some(('C', 'K')),
        188 => Some(('C', 'R')),
        191 => Some(('H', 'R')),
        192 => Some(('C', 'U')),
        196 => Some(('C', 'Y')),
        203 => Some(('C', 'Z')),
        204 => Some(('B', 'J')),
        208 => Some(('D', 'K')),
        212 => Some(('D', 'M')),
        214 => Some(('D', 'O')),
        218 => Some(('E', 'C')),
        222 => Some(('S', 'V')),
        226 => Some(('G', 'Q')),
        231 => Some(('E', 'T')),
        232 => Some(('E', 'R')),
        233 => Some(('E', 'E')),
        234 => Some(('F', 'O')),
        238 => Some(('F', 'K')),
        239 => Some(('G', 'S')),
        242 => Some(('F', 'J')),
        246 => Some(('F', 'I')),
        248 => Some(('A', 'X')),
        250 => Some(('F', 'R')),
        254 => Some(('G', 'F')),
        258 => Some(('P', 'F')),
        260 => Some(('T', 'F')),
        262 => Some(('D', 'J')),
        266 => Some(('G', 'A')),
        268 => Some(('G', 'E')),
        270 => Some(('G', 'M')),
        275 => Some(('P', 'S')),
        276 => Some(('D', 'E')),
        288 => Some(('G', 'H')),
        292 => Some(('G', 'I')),
        296 => Some(('K', 'I')),
        300 => Some(('G', 'R')),
        304 => Some(('G', 'L')),
        308 => Some(('G', 'D')),
        312 => Some(('G', 'P')),
        316 => Some(('G', 'U')),
        320 => Some(('G', 'T')),
        324 => Some(('G', 'N')),
        328 => Some(('G', 'Y')),
        332 => Some(('H', 'T')),
        334 => Some(('H', 'M')),
        336 => Some(('V', 'A')),
        340 => Some(('H', 'N')),
        344 => Some(('H', 'K')),
        348 => Some(('H', 'U')),
        352 => Some(('I', 'S')),
        356 => Some(('I', 'N')),
        360 => Some(('I', 'D')),
        364 => Some(('I', 'R')),
        368 => Some(('I', 'Q')),
        372 => Some(('I', 'E')),
        376 => Some(('I', 'L')),
        380 => Some(('I', 'T')),
        384 => Some(('C', 'I')),
        388 => Some(('J', 'M')),
        392 => Some(('J', 'P')),
        398 => Some(('K', 'Z')),
        400 => Some(('J', 'O')),
        404 => Some(('K', 'E')),
        408 => Some(('K', 'P')),
        410 => Some(('K', 'R')),
        414 => Some(('K', 'W')),
        417 => Some(('K', 'G')),
        418 => Some(('L', 'A')),
        422 => Some(('L', 'B')),
        426 => Some(('L', 'S')),
        428 => Some(('L', 'V')),
        430 => Some(('L', 'R')),
        434 => Some(('L', 'Y')),
        438 => Some(('L', 'I')),
        440 => Some(('L', 'T')),
        442 => Some(('L', 'U')),
        446 => Some(('M', 'O')),
        450 => Some(('M', 'G')),
        454 => Some(('M', 'W')),
        458 => Some(('M', 'Y')),
        462 => Some(('M', 'V')),
        466 => Some(('M', 'L')),
        470 => Some(('M', 'T')),
        474 => Some(('M', 'Q')),
        478 => Some(('M', 'R')),
        480 => Some(('M', 'U')),
        484 => Some(('M', 'X')),
        492 => Some(('M', 'C')),
        496 => Some(('M', 'N')),
        498 => Some(('M', 'D')),
        499 => Some(('M', 'E')),
        500 => Some(('M', 'S')),
        504 => Some(('M', 'A')),
        508 => Some(('M', 'Z')),
        512 => Some(('O', 'M')),
        516 => Some(('N', 'A')),
        520 => Some(('N', 'R')),
        524 => Some(('N', 'P')),
        528 => Some(('N', 'L')),
        531 => Some(('C', 'W')),
        533 => Some(('A', 'W')),
        534 => Some(('S', 'X')),
        535 => Some(('B', 'Q')),
        540 => Some(('N', 'C')),
        548 => Some(('V', 'U')),
        554 => Some(('N', 'Z')),
        558 => Some(('N', 'I')),
        562 => Some(('N', 'E')),
        566 => Some(('N', 'G')),
        570 => Some(('N', 'U')),
        574 => Some(('N', 'F')),
        578 => Some(('N', 'O')),
        580 => Some(('M', 'P')),
        581 => Some(('U', 'M')),
        583 => Some(('F', 'M')),
        584 => Some(('M', 'H')),
        585 => Some(('P', 'W')),
        586 => Some(('P', 'K')),
        591 => Some(('P', 'A')),
        598 => Some(('P', 'G')),
        600 => Some(('P', 'Y')),
        604 => Some(('P', 'E')),
        608 => Some(('P', 'H')),
        612 => Some(('P', 'N')),
        616 => Some(('P', 'L')),
        620 => Some(('P', 'T')),
        624 => Some(('G', 'W')),
        626 => Some(('T', 'L')),
        630 => Some(('P', 'R')),
        634 => Some(('Q', 'A')),
        638 => Some(('R', 'E')),
        642 => Some(('R', 'O')),
        643 => Some(('R', 'U')),
        646 => Some(('R', 'W')),
        652 => Some(('B', 'L')),
        654 => Some(('S', 'H')),
        659 => Some(('K', 'N')),
        660 => Some(('A', 'I')),
        662 => Some(('L', 'C')),
        663 => Some(('M', 'F')),
        666 => Some(('P', 'M')),
        670 => Some(('V', 'C')),
        674 => Some(('S', 'M')),
        678 => Some(('S', 'T')),
        682 => Some(('S', 'A')),
        686 => Some(('S', 'N')),
        688 => Some(('R', 'S')),
        690 => Some(('S', 'C')),
        694 => Some(('S', 'L')),
        702 => Some(('S', 'G')),
        703 => Some(('S', 'K')),
        704 => Some(('V', 'N')),
        705 => Some(('S', 'I')),
        706 => Some(('S', 'O')),
        710 => Some(('Z', 'A')),
        716 => Some(('Z', 'W')),
        724 => Some(('E', 'S')),
        728 => Some(('S', 'S')),
        729 => Some(('S', 'D')),
        732 => Some(('E', 'H')),
        740 => Some(('S', 'R')),
        744 => Some(('S', 'J')),
        748 => Some(('S', 'Z')),
        752 => Some(('S', 'E')),
        756 => Some(('C', 'H')),
        760 => Some(('S', 'Y')),
        762 => Some(('T', 'J')),
        764 => Some(('T', 'H')),
        768 => Some(('T', 'G')),
        772 => Some(('T', 'K')),
        776 => Some(('T', 'O')),
        780 => Some(('T', 'T')),
        784 => Some(('A', 'E')),
        788 => Some(('T', 'N')),
        792 => Some(('T', 'R')),
        795 => Some(('T', 'M')),
        796 => Some(('T', 'C')),
        798 => Some(('T', 'V')),
        800 => Some(('U', 'G')),
        804 => Some(('U', 'A')),
        807 => Some(('M', 'K')),
        818 => Some(('E', 'G')),
        826 => Some(('G', 'B')),
        831 => Some(('G', 'G')),
        832 => Some(('J', 'E')),
        833 => Some(('I', 'M')),
        834 => Some(('T', 'Z')),
        840 => Some(('U', 'S')),
        850 => Some(('V', 'I')),
        854 => Some(('B', 'F')),
        858 => Some(('U', 'Y')),
        860 => Some(('U', 'Z')),
        862 => Some(('V', 'E')),
        876 => Some(('W', 'F')),
        882 => Some(('W', 'S')),
        887 => Some(('Y', 'E')),
        894 => Some(('Z', 'M')),
        _ => None,
    }
}

fn iso_numeric_exec(a: char, b: char) -> (r: Option<u16>)
    ensures
        r == iso_numeric(a, b),
{
    reveal(iso_numeric);
    match (a, b) {
        ('A', 'F') => Some(4u16),
        ('A', 'X') => Some(248u16),
        ('A', 'L') => Some(8u16),
        ('D', 'Z') => Some(12u16),
        ('A', 'S') => Some(16u16),
        ('A', 'D') => Some(20u16),
        ('A', 'O') => Some(24u16),
        ('A', 'I') => Some(660u16),
        ('A', 'Q') => Some(10u16),
        ('A', 'G') => Some(28u16),
        ('A', 'R') => Some(32u16),
        ('A', 'M') => Some(51u16),
        ('A', 'W') => Some(533u16),
        ('A', 'U') => Some(36u16),
        ('A', 'T') => Some(40u16),
        ('A', 'Z') => Some(31u16),
        ('B', 'S') => Some(44u16),
        ('B', 'H') => Some(48u16),
        ('B', 'D') => Some(50u16),
        ('B', 'B') => Some(52u16),
        ('B', 'Y') => Some(112u16),
        ('B', 'E') => Some(56u16),
        ('B', 'Z') => Some(84u16),
        ('B', 'J') => Some(204u16),
        ('B', 'M') => Some(60u16),
        ('B', 'T') => Some(64u16),
        ('B', 'O') => Some(68u16),
        ('B', 'Q') => Some(535u16),
        ('B', 'A') => Some(70u16),
        ('B', 'W') => Some(72u16),
        ('B', 'V') => Some(74u16),
        ('B', 'R') => Some(76u16),
        ('I', 'O') => Some(86u16),
        ('B', 'N') => Some(96u16),
        ('B', 'G') => Some(100u16),
        ('B', 'F') => Some(854u16),
        ('B', 'I') => Some(108u16),
        ('C', 'V') => Some(132u16),
        ('K', 'H') => Some(116u16),
        ('C', 'M') => Some(120u16),
        ('C', 'A') => Some(124u16),
        ('K', 'Y') => Some(136u16),
        ('C', 'F') => Some(140u16),
        ('T', 'D') => Some(148u16),
        ('C', 'L') => Some(152u16),
        ('C', 'N') => Some(156u16),
        ('C', 'X') => Some(162u16),
        ('C', 'C') => Some(166u16),
        ('C', 'O') => Some(170u16),
        ('K', 'M') => Some(174u16),
        ('C', 'G') => Some(178u16),
        ('C', 'D') => Some(180u16),
        ('C', 'K') => Some(184u16),
        ('C', 'R') => Some(188u16),
        ('C', 'I') => Some(384u16),
        ('H', 'R') => Some(191u16),
        ('C', 'U') => Some(192u16),
        ('C', 'W') => Some(531u16),
        ('C', 'Y') => Some(196u16),
        ('C', 'Z') => Some(203u16),
        ('D', 'K') => Some(208u16),
        ('D', 'J') => Some(262u16),
        ('D', 'M') => Some(212u16),
        ('D', 'O') => Some(214u16),
        ('E', 'C') => Some(218u16),
        ('E', 'G') => Some(818u16),
        ('S', 'V') => Some(222u16),
        ('G', 'Q') => Some(226u16),
        ('E', 'R') => Some(232u16),
        ('E', 'E') => Some(233u16),
        ('S', 'Z') => Some(748u16),
        ('E', 'T') => Some(231u16),
        ('F', 'K') => Some(238u16),
        ('F', 'O') => Some(234u16),
        ('F', 'J') => Some(242u16),
        ('F', 'I') => Some(246u16),
        ('F', 'R') => Some(250u16),
        ('G', 'F') => Some(254u16),
        ('P', 'F') => Some(258u16),
        ('T', 'F') => Some(260u16),
        ('G', 'A') => Some(266u16),
        ('G', 'M') => Some(270u16),
        ('G', 'E') => Some(268u16),
        ('D', 'E') => Some(276u16),
        ('G', 'H') => Some(288u16),
        ('G', 'I') => Some(292u16),
        ('G', 'R') => Some(300u16),
        ('G', 'L') => Some(304u16),
        ('G', 'D') => Some(308u16),
        ('G', 'P') => Some(312u16),
        ('G', 'U') => Some(316u16),
        ('G', 'T') => Some(320u16),
        ('G', 'G') => Some(831u16),
        ('G', 'N') => Some(324u16),
        ('G', 'W') => Some(624u16),
        ('G', 'Y') => Some(328u16),
        ('H', 'T') => Some(332u16),
        ('H', 'M') => Some(334u16),
        ('V', 'A') => Some(336u16),
        ('H', 'N') => Some(340u16),
        ('H', 'K') => Some(344u16),
        ('H', 'U') => Some(348u16),
        ('I', 'S') => Some(352u16),
        ('I', 'N') => Some(356u16),
        ('I', 'D') => Some(360u16),
        ('I', 'R') => Some(364u16),
        ('I', 'Q') => Some(368u16),
        ('I', 'E') => Some(372u16),
        ('I', 'M') => Some(833u16),
        ('I', 'L') => Some(376u16),
        ('I', 'T') => Some(380u16),
        ('J', 'M') => Some(388u16),
        ('J', 'P') => Some(392u16),
        ('J', 'E') => Some(832u16),
        ('J', 'O') => Some(400u16),
        ('K', 'Z') => Some(398u16),
        ('K', 'E') => Some(404u16),
        ('K', 'I') => Some(296u16),
        ('K', 'P') => Some(408u16),
        ('K', 'R') => Some(410u16),
        ('K', 'W') => Some(414u16),
        ('K', 'G') => Some(417u16),
        ('L', 'A') => Some(418u16),
        ('L', 'V') => Some(428u16),
        ('L', 'B') => Some(422u16),
        ('L', 'S') => Some(426u16),
        ('L', 'R') => Some(430u16),
        ('L', 'Y') => Some(434u16),
        ('L', 'I') => Some(438u16),
        ('L', 'T') => Some(440u16),
        ('L', 'U') => Some(442u16),
        ('M', 'O') => Some(446u16),
        ('M', 'G') => Some(450u16),
        ('M', 'W') => Some(454u16),
        ('M', 'Y') => Some(458u16),
        ('M', 'V') => Some(462u16),
        ('M', 'L') => Some(466u16),
        ('M', 'T') => Some(470u16),
        ('M', 'H') => Some(584u16),
        ('M', 'Q') => Some(474u16),
        ('M', 'R') => Some(478u16),
        ('M', 'U') => Some(480u16),
        ('Y', 'T') => Some(175u16),
        ('M', 'X') => Some(484u16),
        ('F', 'M') => Some(583u16),
        ('M', 'D') => Some(498u16),
        ('M', 'C') => Some(492u16),
        ('M', 'N') => Some(496u16),
        ('M', 'E') => Some(499u16),
        ('M', 'S') => Some(500u16),
        ('M', 'A') => Some(504u16),
        ('M', 'Z') => Some(508u16),
        ('M', 'M') => Some(104u16),
        ('N', 'A') => Some(516u16),
        ('N', 'R') => Some(520u16),
        ('N', 'P') => Some(524u16),
        ('N', 'L') => Some(528u16),
        ('N', 'C') => Some(540u16),
        ('N', 'Z') => Some(554u16),
        ('N', 'I') => Some(558u16),
        ('N', 'E') => Some(562u16),
        ('N', 'G') => Some(566u16),
        ('N', 'U') => Some(570u16),
        ('N', 'F') => Some(574u16),
        ('M', 'K') => Some(807u16),
        ('M', 'P') => Some(580u16),
        ('N', 'O') => Some(578u16),
        ('O', 'M') => Some(512u16),
        ('P', 'K') => Some(586u16),
        ('P', 'W') => Some(585u16),
        ('P', 'S') => Some(275u16),
        ('P', 'A') => Some(591u16),
        ('P', 'G') => Some(598u16),
        ('P', 'Y') => Some(600u16),
        ('P', 'E') => Some(604u16),
        ('P', 'H') => Some(608u16),
        ('P', 'N') => Some(612u16),
        ('P', 'L') => Some(616u16),
        ('P', 'T') => Some(620u16),
        ('P', 'R') => Some(630u16),
        ('Q', 'A') => Some(634u16),
        ('R', 'E') => Some(638u16),
        ('R', 'O') => Some(642u16),
        ('R', 'U') => Some(643u16),
        ('R', 'W') => Some(646u16),
        ('B', 'L') => Some(652u16),
        ('S', 'H') => Some(654u16),
        ('K', 'N') => Some(659u16),
        ('L', 'C') => Some(662u16),
        ('M', 'F') => Some(663u16),
        ('P', 'M') => Some(666u16),
        ('V', 'C') => Some(670u16),
        ('W', 'S') => Some(882u16),
        ('S', 'M') => Some(674u16),
        ('S', 'T') => Some(678u16),
        ('S', 'A') => Some(682u16),
        ('S', 'N') => Some(686u16),
        ('R', 'S') => Some(688u16),
        ('S', 'C') => Some(690u16),
        ('S', 'L') => Some(694u16),
        ('S', 'G') => Some(702u16),
        ('S', 'X') => Some(534u16),
        ('S', 'K') => Some(703u16),
        ('S', 'I') => Some(705u16),
        ('S', 'B') => Some(90u16),
        ('S', 'O') => Some(706u16),
        ('Z', 'A') => Some(710u16),
        ('G', 'S') => Some(239u16),
        ('S', 'S') => Some(728u16),
        ('E', 'S') => Some(724u16),
        ('L', 'K') => Some(144u16),
        ('S', 'D') => Some(729u16),
        ('S', 'R') => Some(740u16),
        ('S', 'J') => Some(744u16),
        ('S', 'E') => Some(752u16),
        ('C', 'H') => Some(756u16),
        ('S', 'Y') => Some(760u16),
        ('T', 'W') => Some(158u16),
        ('T', 'J') => Some(762u16),
        ('T', 'Z') => Some(834u16),
        ('T', 'H') => Some(764u16),
        ('T', 'L') => Some(626u16),
        ('T', 'G') => Some(768u16),
        ('T', 'K') => Some(772u16),
        ('T', 'O') => Some(776u16),
        ('T', 'T') => Some(780u16),
        ('T', 'N') => Some(788u16),
        ('T', 'R') => Some(792u16),
        ('T', 'M') => Some(795u16),
        ('T', 'C') => Some(796u16),
        ('T', 'V') => Some(798u16),
        ('U', 'G') => Some(800u16),
        ('U', 'A') => Some(804u16),
        ('A', 'E') => Some(784u16),
        ('G', 'B') => Some(826u16),
        ('U', 'S') => Some(840u16),
        ('U', 'M') => Some(581u16),
        ('U', 'Y') => Some(858u16),
        ('U', 'Z') => Some(860u16),
        ('V', 'U') => Some(548u16),
        ('V', 'E') => Some(862u16),
        ('V', 'N') => Some(704u16),
        ('V', 'G') => Some(92u16),
        ('V', 'I') => Some(850u16),
        ('W', 'F') => Some(876u16),
        ('E', 'H') => Some(732u16),
        ('Y', 'E') => Some(887u16),
        ('Z', 'M') => Some(894u16),
        ('Z', 'W') => Some(716u16),
        _ => None,
    }
}

fn iso_alpha2_exec(n: u16) -> (r: Option<(char, char)>)
    ensures
        r == iso_alpha2(n),
{
    reveal(iso_alpha2);
    match n {
        4 => Some(('A', 'F')),
        8 => Some(('A', 'L')),
        10 => Some(('A', 'Q')),
        12 => Some(('D', 'Z')),
        16 => Some(('A', 'S')),
        20 => Some(('A', 'D')),
        24 => Some(('A', 'O')),
        28 => Some(('A', 'G')),
        31 => Some(('A', 'Z')),
        32 => Some(('A', 'R')),
        36 => Some(('A', 'U')),
        40 => Some(('A', 'T')),
        44 => Some(('B', 'S')),
        48 => Some(('B', 'H')),
        50 => Some(('B', 'D')),
        51 => Some(('A', 'M')),
        52 => Some(('B', 'B')),
        56 => Some(('B', 'E')),
        60 => Some(('B', 'M')),
        64 => Some(('B', 'T')),
        68 => Some(('B', 'O')),
        70 => Some(('B', 'A')),
        72 => Some(('B', 'W')),
        74 => Some(('B', 'V')),
        76 => Some(('B', 'R')),
        84 => Some(('B', 'Z')),
        86 => Some(('I', 'O')),
        90 => Some(('S', 'B')),
        92 => Some(('V', 'G')),
        96 => Some(('B', 'N')),
        100 => Some(('B', 'G')),
        104 => Some(('M', 'M')),
        108 => Some(('B', 'I')),
        112 => Some(('B', 'Y')),
        116 => Some(('K', 'H')),
        120 => Some(('C', 'M')),
        124 => Some(('C', 'A')),
        132 => Some(('C', 'V')),
        136 => Some(('K', 'Y')),
        140 => Some(('C', 'F')),
        144 => Some(('L', 'K')),
        148 => Some(('T', 'D')),
        152 => Some(('C', 'L')),
        156 => Some(('C', 'N')),
        158 => Some(('T', 'W')),
        162 => Some(('C', 'X')),
        166 => Some(('C', 'C')),
        170 => Some(('C', 'O')),
        174 => Some(('K', 'M')),
        175 => Some(('Y', 'T')),
        178 => Some(('C', 'G')),
        180 => Some(('C', 'D')),
        184 => Some(('C', 'K')),
        188 => Some(('C', 'R')),
        191 => Some(('H', 'R')),
        192 => Some(('C', 'U')),
        196 => Some(('C', 'Y')),
        203 => Some(('C', 'Z')),
        204 => Some(('B', 'J')),
        208 => Some(('D', 'K')),
        212 => Some(('D', 'M')),
        214 => Some(('D', 'O')),
        218 => Some(('E', 'C')),
        222 => Some(('S', 'V')),
        226 => Some(('G', 'Q')),
        231 => Some(('E', 'T')),
        232 => Some(('E', 'R')),
        233 => Some(('E', 'E')),
        234 => Some(('F', 'O')),
        238 => Some(('F', 'K')),
        239 => Some(('G', 'S')),
        242 => Some(('F', 'J')),
        246 => Some(('F', 'I')),
        248 => Some(('A', 'X')),
        250 => Some(('F', 'R')),
        254 => Some(('G', 'F')),
        258 => Some(('P', 'F')),
        260 => Some(('T', 'F')),
        262 => Some(('D', 'J')),
        266 => Some(('G', 'A')),
        268 => Some(('G', 'E')),
        270 => Some(('G', 'M')),
        275 => Some(('P', 'S')),
        276 => Some(('D', 'E')),
        288 => Some(('G', 'H')),
        292 => Some(('G', 'I')),
        296 => Some(('K', 'I')),
        300 => Some(('G', 'R')),
        304 => Some(('G', 'L')),
        308 => Some(('G', 'D')),
        312 => Some(('G', 'P')),
        316 => Some(('G', 'U')),
        320 => Some(('G', 'T')),
        324 => Some(('G', 'N')),
        328 => Some(('G', 'Y')),
        332 => Some(('H', 'T')),
        334 => Some(('H', 'M')),
        336 => Some(('V', 'A')),
        340 => Some(('H', 'N')),
        344 => Some(('H', 'K')),
        348 => Some(('H', 'U')),
        352 => Some(('I', 'S')),
        356 => Some(('I', 'N')),
        360 => Some(('I', 'D')),
        364 => Some(('I', 'R')),
        368 => Some(('I', 'Q')),
        372 => Some(('I', 'E')),
        376 => Some(('I', 'L')),
        380 => Some(('I', 'T')),
        384 => Some(('C', 'I')),
        388 => Some(('J', 'M')),
        392 => Some(('J', 'P')),
        398 => Some(('K', 'Z')),
        400 => Some(('J', 'O')),
        404 => Some(('K', 'E')),
        408 => Some(('K', 'P')),
        410 => Some(('K', 'R')),
        414 => Some(('K', 'W')),
        417 => Some(('K', 'G')),
        418 => Some(('L', 'A')),
        422 => Some(('L', 'B')),
        426 => Some(('L', 'S')),
        428 => Some(('L', 'V')),
        430 => Some(('L', 'R')),
        434 => Some(('L', 'Y')),
        438 => Some(('L', 'I')),
        440 => Some(('L', 'T')),
        442 => Some(('L', 'U')),
        446 => Some(('M', 'O')),
        450 => Some(('M', 'G')),
        454 => Some(('M', 'W')),
        458 => Some(('M', 'Y')),
        462 => Some(('M', 'V')),
        466 => Some(('M', 'L')),
        470 => Some(('M', 'T')),
        474 => Some(('M', 'Q')),
        478 => Some(('M', 'R')),
        480 => Some(('M', 'U')),
        484 => Some(('M', 'X')),
        492 => Some(('M', 'C')),
        496 => Some(('M', 'N')),
        498 => Some(('M', 'D')),
        499 => Some(('M', 'E')),
        500 => Some(('M', 'S')),
        504 => Some(('M', 'A')),
        508 => Some(('M', 'Z')),
        512 => Some(('O', 'M')),
        516 => Some(('N', 'A')),
        520 => Some(('N', 'R')),
        524 => Some(('N', 'P')),
        528 => Some(('N', 'L')),
        531 => Some(('C', 'W')),
        533 => Some(('A', 'W')),
        534 => Some(('S', 'X')),
        535 => Some(('B', 'Q')),
        540 => Some(('N', 'C')),
        548 => Some(('V', 'U')),
        554 => Some(('N', 'Z')),
        558 => Some(('N', 'I')),
        562 => Some(('N', 'E')),
        566 => Some(('N', 'G')),
        570 => Some(('N', 'U')),
        574 => Some(('N', 'F')),
        578 => Some(('N', 'O')),
        580 => Some(('M', 'P')),
        581 => Some(('U', 'M')),
        583 => Some(('F', 'M')),
        584 => Some(('M', 'H')),
        585 => Some(('P', 'W')),
        586 => Some(('P', 'K')),
        591 => Some(('P', 'A')),
        598 => Some(('P', 'G')),
        600 => Some(('P', 'Y')),
        604 => Some(('P', 'E')),
        608 => Some(('P', 'H')),
        612 => Some(('P', 'N')),
        616 => Some(('P', 'L')),
        620 => Some(('P', 'T')),
        624 => Some(('G', 'W')),
        626 => Some(('T', 'L')),
        630 => Some(('P', 'R')),
        634 => Some(('Q', 'A')),
        638 => Some(('R', 'E')),
        642 => Some(('R', 'O')),
        643 => Some(('R', 'U')),
        646 => Some(('R', 'W')),
        652 => Some(('B', 'L')),
        654 => Some(('S', 'H')),
        659 => Some(('K', 'N')),
        660 => Some(('A', 'I')),
        662 => Some(('L', 'C')),
        663 => Some(('M', 'F')),
        666 => Some(('P', 'M')),
        670 => Some(('V', 'C')),
        674 => Some(('S', 'M')),
        678 => Some(('S', 'T')),
        682 => Some(('S', 'A')),
        686 => Some(('S', 'N')),
        688 => Some(('R', 'S')),
        690 => Some(('S', 'C')),
        694 => Some(('S', 'L')),
        702 => Some(('S', 'G')),
        703 => Some(('S', 'K')),
        704 => Some(('V', 'N')),
        705 => Some(('S', 'I')),
        706 => Some(('S', 'O')),
        710 => Some(('Z', 'A')),
        716 => Some(('Z', 'W')),
        724 => Some(('E', 'S')),
        728 => Some(('S', 'S')),
        729 => Some(('S', 'D')),
        732 => Some(('E', 'H')),
        740 => Some(('S', 'R')),
        744 => Some(('S', 'J')),
        748 => Some(('S', 'Z')),
        752 => Some(('S', 'E')),
        756 => Some(('C', 'H')),
        760 => Some(('S', 'Y')),
        762 => Some(('T', 'J')),
        764 => Some(('T', 'H')),
        768 => Some(('T', 'G')),
        772 => Some(('T', 'K')),
        776 => Some(('T', 'O')),
        780 => Some(('T', 'T')),
        784 => Some(('A', 'E')),
        788 => Some(('T', 'N')),
        792 => Some(('T', 'R')),
        795 => Some(('T', 'M')),
        796 => Some(('T', 'C')),
        798 => Some(('T', 'V')),
        800 => Some(('U', 'G')),
        804 => Some(('U', 'A')),
        807 => Some(('M', 'K')),
        818 => Some(('E', 'G')),
        826 => Some(('G', 'B')),
        831 => Some(('G', 'G')),
        832 => Some(('J', 'E')),
        833 => Some(('I', 'M')),
        834 => Some(('T', 'Z')),
        840 => Some(('U', 'S')),
        850 => Some(('V', 'I')),
        854 => Some(('B', 'F')),
        858 => Some(('U', 'Y')),
        860 => Some(('U', 'Z')),
        862 => Some(('V', 'E')),
        876 => Some(('W', 'F')),
        882 => Some(('W', 'S')),
        887 => Some(('Y', 'E')),
        894 => Some(('Z', 'M')),
        _ => None,
    }
}

/// The numeric code of a country code: two characters naming an ISO 3166-1
/// country.
pub open spec fn country_numeric(code: Seq<char>) -> Option<u16> {
    if code.len() == 2 {
        iso_numeric(code[0], code[1])
    } else {
        None
    }
}

/// `asn:numeric` for the country `code`, when the country is known.
pub open spec fn country_community(code: Seq<char>, asn: Seq<char>) -> Option<Seq<char>> {
    match country_numeric(code) {
        Some(n) => Some(asn + seq![':'] + decimal(n as nat)),
        None => None,
    }
}

/// Alpha-2 code of the numeric code `n`, as a sequence of two characters.
pub open spec fn numeric_country(n: u16) -> Option<Seq<char>> {
    match iso_alpha2(n) {
        Some((a, b)) => Some(seq![a, b]),
        None => None,
    }
}

/// The numeric and the alpha-2 column name the same countries, one to one.
pub proof fn lemma_iso_round_trip(a: char, b: char, n: u16)
    ensures
        iso_numeric(a, b) == Some(n) <==> iso_alpha2(n) == Some((a, b)),
{
    reveal(iso_numeric);
    reveal(iso_alpha2);
}

/// Table of ISO 3166-1 countries, alpha-2 to numeric.
pub struct CountryCodeMap;

impl CountryCodeMap {
    pub fn new() -> (r: CountryCodeMap) {
        CountryCodeMap
    }

    /// Numeric code of the alpha-2 `code`.
    pub fn get(&self, code: &[char]) -> (r: Option<u16>)
        ensures
            r == country_numeric(code@),
    {
        if code.len() == 2 {
            iso_numeric_exec(code[0], code[1])
        } else {
            None
        }
    }

    /// Whether `code` names a country.
    pub fn contains(&self, code: &[char]) -> (r: bool)
        ensures
            r == country_numeric(code@) is Some,
    {
        self.get(code).is_some()
    }

    /// `asn:numeric` for `country`.
    pub fn community(&self, country: &[char], asn: &[char]) -> (r: Option<Vec<char>>)
        ensures
            match r {
                Some(v) => country_community(country@, asn@) == Some(v@),
                None => country_community(country@, asn@) is None,
            },
    {
        match self.get(country) {
            Some(n) => {
                let mut v = crate::text::concat(asn, &[':']);
                let d = decimal_chars(n as u64);
                crate::text::append(&mut v, d.as_slice());
                Some(v)
            },
            None => None,
        }
    }

    /// Alpha-2 code of the numeric code `n`.
    pub fn country_for_numeric(&self, n: u16) -> (r: Option<Vec<char>>)
        ensures
            match r {
                Some(v) => numeric_country(n) == Some(v@),
                None => numeric_country(n) is None,
            },
    {
        match iso_alpha2_exec(n) {
            Some((a, b)) => {
                let mut v = Vec::new();
                v.push(a);
                v.push(b);
                assert(v@ =~= seq![a, b]);
                Some(v)
            },
            None => None,
        }
    }
}

// ---------------------------------------------------------------------------
// The code table against ISO 3166-1
// ---------------------------------------------------------------------------

proof fn lemma_iso_codes_0()
    ensures
        iso_numeric('A', 'D') == Some(20u16),
        iso_numeric('A', 'E') == Some(784u16),
        iso_numeric('A', 'F') == Some(4u16),
        iso_numeric('A', 'G') == Some(28u16),
        iso_numeric('A', 'I') == Some(660u16),
        iso_numeric('A', 'L') == Some(8u16),
        iso_numeric('A', 'M') == Some(51u16),
        iso_numeric('A', 'O') == Some(24u16),
        iso_numeric('A', 'Q') == Some(10u16),
        iso_numeric('A', 'R') == Some(32u16),
        iso_numeric('A', 'S') == Some(16u16),
        iso_numeric('A', 'T') == Some(40u16),
        iso_numeric('A', 'U') == Some(36u16),
        iso_numeric('A', 'W') == Some(533u16),
        iso_numeric('A', 'X') == Some(248u16),
        iso_numeric('A', 'Z') == Some(31u16),
        iso_numeric('B', 'A') == Some(70u16),
        iso_numeric('B', 'B') == Some(52u16),
        iso_numeric('B', 'D') == Some(50u16),
        iso_numeric('B', 'E') == Some(56u16),
        iso_numeric('B', 'F') == Some(854u16),
        iso_numeric('B', 'G') == Some(100u16),
        iso_numeric('B', 'H') == Some(48u16),
        iso_numeric('B', 'I') == Some(108u16),
        iso_numeric('B', 'J') == Some(204u16),
        iso_numeric('B', 'L') == Some(652u16),
        iso_numeric('B', 'M') == Some(60u16),
        iso_numeric('B', 'N') == Some(96u16),
        iso_numeric('B', 'O') == Some(68u16),
        iso_numeric('B', 'Q') == Some(535u16),
        iso_numeric('B', 'R') == Some(76u16),
        iso_numeric('B', 'S') == Some(44u16),
        iso_numeric('B', 'T') == Some(64u16),
        iso_numeric('B', 'V') == Some(74u16),
        iso_numeric('B', 'W') == Some(72u16),
        iso_numeric('B', 'Y') == Some(112u16),
        iso_numeric('B', 'Z') == Some(84u16),
        iso_numeric('C', 'A') == Some(124u16),
        iso_numeric('C', 'C') == Some(166u16),
        iso_numeric('C', 'D') == Some(180u16),
        iso_numeric('C', 'F') == Some(140u16),
        iso_numeric('C', 'G') == Some(178u16),
        iso_numeric('C', 'H') == Some(756u16),
        iso_numeric('C', 'I') == Some(384u16),
        iso_numeric('C', 'K') == Some(184u16),
        iso_numeric('C', 'L') == Some(152u16),
        iso_numeric('C', 'M') == Some(120u16),
        iso_numeric('C', 'N') == Some(156u16),
        iso_numeric('C', 'O') == Some(170u16),
        iso_numeric('C', 'R') == Some(188u16),
{
    reveal(iso_numeric);
}

proof fn lemma_iso_codes_1()
    ensures
        iso_numeric('C', 'U') == Some(192u16),
        iso_numeric('C', 'V') == Some(132u16),
        iso_numeric('C', 'W') == Some(531u16),
        iso_numeric('C', 'X') == Some(162u16),
        iso_numeric('C', 'Y') == Some(196u16),
        iso_numeric('C', 'Z') == Some(203u16),
        iso_numeric('D', 'E') == Some(276u16),
        iso_numeric('D', 'J') == Some(262u16),
        iso_numeric('D', 'K') == Some(208u16),
        iso_numeric('D', 'M') == Some(212u16),
        iso_numeric('D', 'O') == Some(214u16),
        iso_numeric('D', 'Z') == Some(12u16),
        iso_numeric('E', 'C') == Some(218u16),
        iso_numeric('E', 'E') == Some(233u16),
        iso_numeric('E', 'G') == Some(818u16),
        iso_numeric('E', 'H') == Some(732u16),
        iso_numeric('E', 'R') == Some(232u16),
        iso_numeric('E', 'S') == Some(724u16),
        iso_numeric('E', 'T') == Some(231u16),
        iso_numeric('F', 'I') == Some(246u16),
        iso_numeric('F', 'J') == Some(242u16),
        iso_numeric('F', 'K') == Some(238u16),
        iso_numeric('F', 'M') == Some(583u16),
        iso_numeric('F', 'O') == Some(234u16),
        iso_numeric('F', 'R') == Some(250u16),
        iso_numeric('G', 'A') == Some(266u16),
        iso_numeric('G', 'B') == Some(826u16),
        iso_numeric('G', 'D') == Some(308u16),
        iso_numeric('G', 'E') == Some(268u16),
        iso_numeric('G', 'F') == Some(254u16),
        iso_numeric('G', 'G') == Some(831u16),
        iso_numeric('G', 'H') == Some(288u16),
        iso_numeric('G', 'I') == Some(292u16),
        iso_numeric('G', 'L') == Some(304u16),
        iso_numeric('G', 'M') == Some(270u16),
        iso_numeric('G', 'N') == Some(324u16),
        iso_numeric('G', 'P') == Some(312u16),
        iso_numeric('G', 'Q') == Some(226u16),
        iso_numeric('G', 'R') == Some(300u16),
        iso_numeric('G', 'S') == Some(239u16),
        iso_numeric('G', 'T') == Some(320u16),
        iso_numeric('G', 'U') == Some(316u16),
        iso_numeric('G', 'W') == Some(624u16),
        iso_numeric('G', 'Y') == Some(328u16),
        iso_numeric('H', 'K') == Some(344u16),
        iso_numeric('H', 'M') == Some(334u16),
        iso_numeric('H', 'N') == Some(340u16),
        iso_numeric('H', 'R') == Some(191u16),
        iso_numeric('H', 'T') == Some(332u16),
        iso_numeric('H', 'U') == Some(348u16),
{
    reveal(iso_numeric);
}

proof fn lemma_iso_codes_2()
    ensures
        iso_numeric('I', 'D') == Some(360u16),
        iso_numeric('I', 'E') == Some(372u16),
        iso_numeric('I', 'L') == Some(376u16),
        iso_numeric('I', 'M') == Some(833u16),
        iso_numeric('I', 'N') == Some(356u16),
        iso_numeric('I', 'O') == Some(86u16),
        iso_numeric('I', 'Q') == Some(368u16),
        iso_numeric('I', 'R') == Some(364u16),
        iso_numeric('I', 'S') == Some(352u16),
        iso_numeric('I', 'T') == Some(380u16),
        iso_numeric('J', 'E') == Some(832u16),
        iso_numeric('J', 'M') == Some(388u16),
        iso_numeric('J', 'O') == Some(400u16),
        iso_numeric('J', 'P') == Some(392u16),
        iso_numeric('K', 'E') == Some(404u16),
        iso_numeric('K', 'G') == Some(417u16),
        iso_numeric('K', 'H') == Some(116u16),
        iso_numeric('K', 'I') == Some(296u16),
        iso_numeric('K', 'M') == Some(174u16),
        iso_numeric('K', 'N') == Some(659u16),
        iso_numeric('K', 'P') == Some(408u16),
        iso_numeric('K', 'R') == Some(410u16),
        iso_numeric('K', 'W') == Some(414u16),
        iso_numeric('K', 'Y') == Some(136u16),
        iso_numeric('K', 'Z') == Some(398u16),
        iso_numeric('L', 'A') == Some(418u16),
        iso_numeric('L', 'B') == Some(422u16),
        iso_numeric('L', 'C') == Some(662u16),
        iso_numeric('L', 'I') == Some(438u16),
        iso_numeric('L', 'K') == Some(144u16),
        iso_numeric('L', 'R') == Some(430u16),
        iso_numeric('L', 'S') == Some(426u16),
        iso_numeric('L', 'T') == Some(440u16),
        iso_numeric('L', 'U') == Some(442u16),
        iso_numeric('L', 'V') == Some(428u16),
        iso_numeric('L', 'Y') == Some(434u16),
        iso_numeric('M', 'A') == Some(504u16),
        iso_numeric('M', 'C') == Some(492u16),
        iso_numeric('M', 'D') == Some(498u16),
        iso_numeric('M', 'E') == Some(499u16),
        iso_numeric('M', 'F') == Some(663u16),
        iso_numeric('M', 'G') == Some(450u16),
        iso_numeric('M', 'H') == Some(584u16),
        iso_numeric('M', 'K') == Some(807u16),
        iso_numeric('M', 'L') == Some(466u16),
        iso_numeric('M', 'M') == Some(104u16),
        iso_numeric('M', 'N') == Some(496u16),
        iso_numeric('M', 'O') == Some(446u16),
        iso_numeric('M', 'P') == Some(580u16),
        iso_numeric('M', 'Q') == Some(474u16),
{
    reveal(iso_numeric);
}

proof fn lemma_iso_codes_3()
    ensures
        iso_numeric('M', 'R') == Some(478u16),
        iso_numeric('M', 'S') == Some(500u16),
        iso_numeric('M', 'T') == Some(470u16),
        iso_numeric('M', 'U') == Some(480u16),
        iso_numeric('M', 'V') == Some(462u16),
        iso_numeric('M', 'W') == Some(454u16),
        iso_numeric('M', 'X') == Some(484u16),
        iso_numeric('M', 'Y') == Some(458u16),
        iso_numeric('M', 'Z') == Some(508u16),
        iso_numeric('N', 'A') == Some(516u16),
        iso_numeric('N', 'C') == Some(540u16),
        iso_numeric('N', 'E') == Some(562u16),
        iso_numeric('N', 'F') == Some(574u16),
        iso_numeric('N', 'G') == Some(566u16),
        iso_numeric('N', 'I') == Some(558u16),
        iso_numeric('N', 'L') == Some(528u16),
        iso_numeric('N', 'O') == Some(578u16),
        iso_numeric('N', 'P') == Some(524u16),
        iso_numeric('N', 'R') == Some(520u16),
        iso_numeric('N', 'U') == Some(570u16),
        iso_numeric('N', 'Z') == Some(554u16),
        iso_numeric('O', 'M') == Some(512u16),
        iso_numeric('P', 'A') == Some(591u16),
        iso_numeric('P', 'E') == Some(604u16),
        iso_numeric('P', 'F') == Some(258u16),
        iso_numeric('P', 'G') == Some(598u16),
        iso_numeric('P', 'H') == Some(608u16),
        iso_numeric('P', 'K') == Some(586u16),
        iso_numeric('P', 'L') == Some(616u16),
        iso_numeric('P', 'M') == Some(666u16),
        iso_numeric('P', 'N') == Some(612u16),
        iso_numeric('P', 'R') == Some(630u16),
        iso_numeric('P', 'S') == Some(275u16),
        iso_numeric('P', 'T') == Some(620u16),
        iso_numeric('P', 'W') == Some(585u16),
        iso_numeric('P', 'Y') == Some(600u16),
        iso_numeric('Q', 'A') == Some(634u16),
        iso_numeric('R', 'E') == Some(638u16),
        iso_numeric('R', 'O') == Some(642u16),
        iso_numeric('R', 'S') == Some(688u16),
        iso_numeric('R', 'U') == Some(643u16),
        iso_numeric('R', 'W') == Some(646u16),
        iso_numeric('S', 'A') == Some(682u16),
        iso_numeric('S', 'B') == Some(90u16),
        iso_numeric('S', 'C') == Some(690u16),
        iso_numeric('S', 'D') == Some(729u16),
        iso_numeric('S', 'E') == Some(752u16),
        iso_numeric('S', 'G') == Some(702u16),
        iso_numeric('S', 'H') == Some(654u16),
        iso_numeric('S', 'I') == Some(705u16),
{
    reveal(iso_numeric);
}

proof fn lemma_iso_codes_4()
    ensures
        iso_numeric('S', 'J') == Some(744u16),
        iso_numeric('S', 'K') == Some(703u16),
        iso_numeric('S', 'L') == Some(694u16),
        iso_numeric('S', 'M') == Some(674u16),
        iso_numeric('S', 'N') == Some(686u16),
        iso_numeric('S', 'O') == Some(706u16),
        iso_numeric('S', 'R') == Some(740u16),
        iso_numeric('S', 'S') == Some(728u16),
        iso_numeric('S', 'T') == Some(678u16),
        iso_numeric('S', 'V') == Some(222u16),
        iso_numeric('S', 'X') == Some(534u16),
        iso_numeric('S', 'Y') == Some(760u16),
        iso_numeric('S', 'Z') == Some(748u16),
        iso_numeric('T', 'C') == Some(796u16),
        iso_numeric('T', 'D') == Some(148u16),
        iso_numeric('T', 'F') == Some(260u16),
        iso_numeric('T', 'G') == Some(768u16),
        iso_numeric('T', 'H') == Some(764u16),
        iso_numeric('T', 'J') == Some(762u16),
        iso_numeric('T', 'K') == Some(772u16),
        iso_numeric('T', 'L') == Some(626u16),
        iso_numeric('T', 'M') == Some(795u16),
        iso_numeric('T', 'N') == Some(788u16),
        iso_numeric('T', 'O') == Some(776u16),
        iso_numeric('T', 'R') == Some(792u16),
        iso_numeric('T', 'T') == Some(780u16),
        iso_numeric('T', 'V') == Some(798u16),
        iso_numeric('T', 'W') == Some(158u16),
        iso_numeric('T', 'Z') == Some(834u16),
        iso_numeric('U', 'A') == Some(804u16),
        iso_numeric('U', 'G') == Some(800u16),
        iso_numeric('U', 'M') == Some(581u16),
        iso_numeric('U', 'S') == Some(840u16),
        iso_numeric('U', 'Y') == Some(858u16),
        iso_numeric('U', 'Z') == Some(860u16),
        iso_numeric('V', 'A') == Some(336u16),
        iso_numeric('V', 'C') == Some(670u16),
        iso_numeric('V', 'E') == Some(862u16),
        iso_numeric('V', 'G') == Some(92u16),
        iso_numeric('V', 'I') == Some(850u16),
        iso_numeric('V', 'N') == Some(704u16),
        iso_numeric('V', 'U') == Some(548u16),
        iso_numeric('W', 'F') == Some(876u16),
        iso_numeric('W', 'S') == Some(882u16),
        iso_numeric('Y', 'E') == Some(887u16),
        iso_numeric('Y', 'T') == Some(175u16),
        iso_numeric('Z', 'A') == Some(710u16),
        iso_numeric('Z', 'M') == Some(894u16),
        iso_numeric('Z', 'W') == Some(716u16),
{
    reveal(iso_numeric);
}

/// Each alpha-2 code of ISO 3166-1 has its ISO 3166-1 numeric code, as
/// the standard lists them (for example Algeria `DZ` 012, Albania `AL` 008,
/// China `CN` 156); the numeric code names the country back (see
/// `lemma_iso_round_trip`).
pub proof fn law_iso_codes()
    ensures
        iso_numeric('A', 'D') == Some(20u16),
        iso_numeric('A', 'E') == Some(784u16),
        iso_numeric('A', 'F') == Some(4u16),
        iso_numeric('A', 'G') == Some(28u16),
        iso_numeric('A', 'I') == Some(660u16),
        iso_numeric('A', 'L') == Some(8u16),
        iso_numeric('A', 'M') == Some(51u16),
        iso_numeric('A', 'O') == Some(24u16),
        iso_numeric('A', 'Q') == Some(10u16),
        iso_numeric('A', 'R') == Some(32u16),
        iso_numeric('A', 'S') == Some(16u16),
        iso_numeric('A', 'T') == Some(40u16),
        iso_numeric('A', 'U') == Some(36u16),
        iso_numeric('A', 'W') == Some(533u16),
        iso_numeric('A', 'X') == Some(248u16),
        iso_numeric('A', 'Z') == Some(31u16),
        iso_numeric('B', 'A') == Some(70u16),
        iso_numeric('B', 'B') == Some(52u16),
        iso_numeric('B', 'D') == Some(50u16),
        iso_numeric('B', 'E') == Some(56u16),
        iso_numeric('B', 'F') == Some(854u16),
        iso_numeric('B', 'G') == Some(100u16),
        iso_numeric('B', 'H') == Some(48u16),
        iso_numeric('B', 'I') == Some(108u16),
        iso_numeric('B', 'J') == Some(204u16),
        iso_numeric('B', 'L') == Some(652u16),
        iso_numeric('B', 'M') == Some(60u16),
        iso_numeric('B', 'N') == Some(96u16),
        iso_numeric('B', 'O') == Some(68u16),
        iso_numeric('B', 'Q') == Some(535u16),
        iso_numeric('B', 'R') == Some(76u16),
        iso_numeric('B', 'S') == Some(44u16),
        iso_numeric('B', 'T') == Some(64u16),
        iso_numeric('B', 'V') == Some(74u16),
        iso_numeric('B', 'W') == Some(72u16),
        iso_numeric('B', 'Y') == Some(112u16),
        iso_numeric('B', 'Z') == Some(84u16),
        iso_numeric('C', 'A') == Some(124u16),
        iso_numeric('C', 'C') == Some(166u16),
        iso_numeric('C', 'D') == Some(180u16),
        iso_numeric('C', 'F') == Some(140u16),
        iso_numeric('C', 'G') == Some(178u16),
        iso_numeric('C', 'H') == Some(756u16),
        iso_numeric('C', 'I') == Some(384u16),
        iso_numeric('C', 'K') == Some(184u16),
        iso_numeric('C', 'L') == Some(152u16),
        iso_numeric('C', 'M') == Some(120u16),
        iso_numeric('C', 'N') == Some(156u16),
        iso_numeric('C', 'O') == Some(170u16),
        iso_numeric('C', 'R') == Some(188u16),
        iso_numeric('C', 'U') == Some(192u16),
        iso_numeric('C', 'V') == Some(132u16),
        iso_numeric('C', 'W') == Some(531u16),
        iso_numeric('C', 'X') == Some(162u16),
        iso_numeric('C', 'Y') == Some(196u16),
        iso_numeric('C', 'Z') == Some(203u16),
        iso_numeric('D', 'E') == Some(276u16),
        iso_numeric('D', 'J') == Some(262u16),
        iso_numeric('D', 'K') == Some(208u16),
        iso_numeric('D', 'M') == Some(212u16),
        iso_numeric('D', 'O') == Some(214u16),
        iso_numeric('D', 'Z') == Some(12u16),
        iso_numeric('E', 'C') == Some(218u16),
        iso_numeric('E', 'E') == Some(233u16),
        iso_numeric('E', 'G') == Some(818u16),
        iso_numeric('E', 'H') == Some(732u16),
        iso_numeric('E', 'R') == Some(232u16),
        iso_numeric('E', 'S') == Some(724u16),
        iso_numeric('E', 'T') == Some(231u16),
        iso_numeric('F', 'I') == Some(246u16),
        iso_numeric('F', 'J') == Some(242u16),
        iso_numeric('F', 'K') == Some(238u16),
        iso_numeric('F', 'M') == Some(583u16),
        iso_numeric('F', 'O') == Some(234u16),
        iso_numeric('F', 'R') == Some(250u16),
        iso_numeric('G', 'A') == Some(266u16),
        iso_numeric('G', 'B') == Some(826u16),
        iso_numeric('G', 'D') == Some(308u16),
        iso_numeric('G', 'E') == Some(268u16),
        iso_numeric('G', 'F') == Some(254u16),
        iso_numeric('G', 'G') == Some(831u16),
        iso_numeric('G', 'H') == Some(288u16),
        iso_numeric('G', 'I') == Some(292u16),
        iso_numeric('G', 'L') == Some(304u16),
        iso_numeric('G', 'M') == Some(270u16),
        iso_numeric('G', 'N') == Some(324u16),
        iso_numeric('G', 'P') == Some(312u16),
        iso_numeric('G', 'Q') == Some(226u16),
        iso_numeric('G', 'R') == Some(300u16),
        iso_numeric('G', 'S') == Some(239u16),
        iso_numeric('G', 'T') == Some(320u16),
        iso_numeric('G', 'U') == Some(316u16),
        iso_numeric('G', 'W') == Some(624u16),
        iso_numeric('G', 'Y') == Some(328u16),
        iso_numeric('H', 'K') == Some(344u16),
        iso_numeric('H', 'M') == Some(334u16),
        iso_numeric('H', 'N') == Some(340u16),
        iso_numeric('H', 'R') == Some(191u16),
        iso_numeric('H', 'T') == Some(332u16),
        iso_numeric('H', 'U') == Some(348u16),
        iso_numeric('I', 'D') == Some(360u16),
        iso_numeric('I', 'E') == Some(372u16),
        iso_numeric('I', 'L') == Some(376u16),
        iso_numeric('I', 'M') == Some(833u16),
        iso_numeric('I', 'N') == Some(356u16),
        iso_numeric('I', 'O') == Some(86u16),
        iso_numeric('I', 'Q') == Some(368u16),
        iso_numeric('I', 'R') == Some(364u16),
        iso_numeric('I', 'S') == Some(352u16),
        iso_numeric('I', 'T') == Some(380u16),
        iso_numeric('J', 'E') == Some(832u16),
        iso_numeric('J', 'M') == Some(388u16),
        iso_numeric('J', 'O') == Some(400u16),
        iso_numeric('J', 'P') == Some(392u16),
        iso_numeric('K', 'E') == Some(404u16),
        iso_numeric('K', 'G') == Some(417u16),
        iso_numeric('K', 'H') == Some(116u16),
        iso_numeric('K', 'I') == Some(296u16),
        iso_numeric('K', 'M') == Some(174u16),
        iso_numeric('K', 'N') == Some(659u16),
        iso_numeric('K', 'P') == Some(408u16),
        iso_numeric('K', 'R') == Some(410u16),
        iso_numeric('K', 'W') == Some(414u16),
        iso_numeric('K', 'Y') == Some(136u16),
        iso_numeric('K', 'Z') == Some(398u16),
        iso_numeric('L', 'A') == Some(418u16),
        iso_numeric('L', 'B') == Some(422u16),
        iso_numeric('L', 'C') == Some(662u16),
        iso_numeric('L', 'I') == Some(438u16),
        iso_numeric('L', 'K') == Some(144u16),
        iso_numeric('L', 'R') == Some(430u16),
        iso_numeric('L', 'S') == Some(426u16),
        iso_numeric('L', 'T') == Some(440u16),
        iso_numeric('L', 'U') == Some(442u16),
        iso_numeric('L', 'V') == Some(428u16),
        iso_numeric('L', 'Y') == Some(434u16),
        iso_numeric('M', 'A') == Some(504u16),
        iso_numeric('M', 'C') == Some(492u16),
        iso_numeric('M', 'D') == Some(498u16),
        iso_numeric('M', 'E') == Some(499u16),
        iso_numeric('M', 'F') == Some(663u16),
        iso_numeric('M', 'G') == Some(450u16),
        iso_numeric('M', 'H') == Some(584u16),
        iso_numeric('M', 'K') == Some(807u16),
        iso_numeric('M', 'L') == Some(466u16),
        iso_numeric('M', 'M') == Some(104u16),
        iso_numeric('M', 'N') == Some(496u16),
        iso_numeric('M', 'O') == Some(446u16),
        iso_numeric('M', 'P') == Some(580u16),
        iso_numeric('M', 'Q') == Some(474u16),
        iso_numeric('M', 'R') == Some(478u16),
        iso_numeric('M', 'S') == Some(500u16),
        iso_numeric('M', 'T') == Some(470u16),
        iso_numeric('M', 'U') == Some(480u16),
        iso_numeric('M', 'V') == Some(462u16),
        iso_numeric('M', 'W') == Some(454u16),
        iso_numeric('M', 'X') == Some(484u16),
        iso_numeric('M', 'Y') == Some(458u16),
        iso_numeric('M', 'Z') == Some(508u16),
        iso_numeric('N', 'A') == Some(516u16),
        iso_numeric('N', 'C') == Some(540u16),
        iso_numeric('N', 'E') == Some(562u16),
        iso_numeric('N', 'F') == Some(574u16),
        iso_numeric('N', 'G') == Some(566u16),
        iso_numeric('N', 'I') == Some(558u16),
        iso_numeric('N', 'L') == Some(528u16),
        iso_numeric('N', 'O') == Some(578u16),
        iso_numeric('N', 'P') == Some(524u16),
        iso_numeric('N', 'R') == Some(520u16),
        iso_numeric('N', 'U') == Some(570u16),
        iso_numeric('N', 'Z') == Some(554u16),
        iso_numeric('O', 'M') == Some(512u16),
        iso_numeric('P', 'A') == Some(591u16),
        iso_numeric('P', 'E') == Some(604u16),
        iso_numeric('P', 'F') == Some(258u16),
        iso_numeric('P', 'G') == Some(598u16),
        iso_numeric('P', 'H') == Some(608u16),
        iso_numeric('P', 'K') == Some(586u16),
        iso_numeric('P', 'L') == Some(616u16),
        iso_numeric('P', 'M') == Some(666u16),
        iso_numeric('P', 'N') == Some(612u16),
        iso_numeric('P', 'R') == Some(630u16),
        iso_numeric('P', 'S') == Some(275u16),
        iso_numeric('P', 'T') == Some(620u16),
        iso_numeric('P', 'W') == Some(585u16),
        iso_numeric('P', 'Y') == Some(600u16),
        iso_numeric('Q', 'A') == Some(634u16),
        iso_numeric('R', 'E') == Some(638u16),
        iso_numeric('R', 'O') == Some(642u16),
        iso_numeric('R', 'S') == Some(688u16),
        iso_numeric('R', 'U') == Some(643u16),
        iso_numeric('R', 'W') == Some(646u16),
        iso_numeric('S', 'A') == Some(682u16),
        iso_numeric('S', 'B') == Some(90u16),
        iso_numeric('S', 'C') == Some(690u16),
        iso_numeric('S', 'D') == Some(729u16),
        iso_numeric('S', 'E') == Some(752u16),
        iso_numeric('S', 'G') == Some(702u16),
        iso_numeric('S', 'H') == Some(654u16),
        iso_numeric('S', 'I') == Some(705u16),
        iso_numeric('S', 'J') == Some(744u16),
        iso_numeric('S', 'K') == Some(703u16),
        iso_numeric('S', 'L') == Some(694u16),
        iso_numeric('S', 'M') == Some(674u16),
        iso_numeric('S', 'N') == Some(686u16),
        iso_numeric('S', 'O') == Some(706u16),
        iso_numeric('S', 'R') == Some(740u16),
        iso_numeric('S', 'S') == Some(728u16),
        iso_numeric('S', 'T') == Some(678u16),
        iso_numeric('S', 'V') == Some(222u16),
        iso_numeric('S', 'X') == Some(534u16),
        iso_numeric('S', 'Y') == Some(760u16),
        iso_numeric('S', 'Z') == Some(748u16),
        iso_numeric('T', 'C') == Some(796u16),
        iso_numeric('T', 'D') == Some(148u16),
        iso_numeric('T', 'F') == Some(260u16),
        iso_numeric('T', 'G') == Some(768u16),
        iso_numeric('T', 'H') == Some(764u16),
        iso_numeric('T', 'J') == Some(762u16),
        iso_numeric('T', 'K') == Some(772u16),
        iso_numeric('T', 'L') == Some(626u16),
        iso_numeric('T', 'M') == Some(795u16),
        iso_numeric('T', 'N') == Some(788u16),
        iso_numeric('T', 'O') == Some(776u16),
        iso_numeric('T', 'R') == Some(792u16),
        iso_numeric('T', 'T') == Some(780u16),
        iso_numeric('T', 'V') == Some(798u16),
        iso_numeric('T', 'W') == Some(158u16),
        iso_numeric('T', 'Z') == Some(834u16),
        iso_numeric('U', 'A') == Some(804u16),
        iso_numeric('U', 'G') == Some(800u16),
        iso_numeric('U', 'M') == Some(581u16),
        iso_numeric('U', 'S') == Some(840u16),
        iso_numeric('U', 'Y') == Some(858u16),
        iso_numeric('U', 'Z') == Some(860u16),
        iso_numeric('V', 'A') == Some(336u16),
        iso_numeric('V', 'C') == Some(670u16),
        iso_numeric('V', 'E') == Some(862u16),
        iso_numeric('V', 'G') == Some(92u16),
        iso_numeric('V', 'I') == Some(850u16),
        iso_numeric('V', 'N') == Some(704u16),
        iso_numeric('V', 'U') == Some(548u16),
        iso_numeric('W', 'F') == Some(876u16),
        iso_numeric('W', 'S') == Some(882u16),
        iso_numeric('Y', 'E') == Some(887u16),
        iso_numeric('Y', 'T') == Some(175u16),
        iso_numeric('Z', 'A') == Some(710u16),
        iso_numeric('Z', 'M') == Some(894u16),
        iso_numeric('Z', 'W') == Some(716u16),
{
    lemma_iso_codes_0();
    lemma_iso_codes_1();
    lemma_iso_codes_2();
    lemma_iso_codes_3();
    lemma_iso_codes_4();
}

} // verus!
