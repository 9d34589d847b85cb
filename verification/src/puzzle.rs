//! A whole puzzle document: a board, pieces, and optional notes.
use vstd::prelude::*;

verus! {

use crate::shape::Piece;
use crate::board::Board;

/// A full puzzle: the board, its pieces and optional bilingual notes.
pub struct Puzzle {
    pub units: Option<String>,
    pub board: Option<Board>,
    pub pieces: Vec<Piece>,
    pub note_en: Option<String>,
    pub note_zh: Option<String>,
}

/// Assign stable numeric labels and colors by original input order, so
/// that later z-order reshuffling cannot change what a violation report or
/// a legend refers to.
pub fn assign_piece_colors(p: &mut Puzzle)
    ensures
        final(p).pieces@.len() == old(p).pieces@.len(),
        forall|i: int|
            0 <= i < final(p).pieces@.len() ==> (#[trigger] final(p).pieces@[i]).label_idx == Some(
                i as usize,
            ) && final(p).pieces@[i].color_idx == Some(i as usize) && final(p).pieces@[i].shape
                == old(p).pieces@[i].shape && final(p).pieces@[i].pose == old(p).pieces@[i].pose,
{
    let n = p.pieces.len();
    let mut i: usize = 0;
    while i < n
        invariant
            0 <= i <= n,
            n == p.pieces@.len(),
            p.pieces@.len() == old(p).pieces@.len(),
            forall|k: int|
                0 <= k < i ==> (#[trigger] p.pieces@[k]).label_idx == Some(k as usize)
                    && p.pieces@[k].color_idx == Some(k as usize) && p.pieces@[k].shape == old(
                    p,
                ).pieces@[k].shape && p.pieces@[k].pose == old(p).pieces@[k].pose,
            forall|k: int|
                i <= k < n ==> (#[trigger] p.pieces@[k]).shape == old(p).pieces@[k].shape
                    && p.pieces@[k].pose == old(p).pieces@[k].pose,
        decreases n - i,
    {
        let pc = &mut p.pieces[i];
        pc.label_idx = Some(i);
        pc.color_idx = Some(i);
        i = i + 1;
    }
}

} // verus!
