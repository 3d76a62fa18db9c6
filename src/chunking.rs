use vstd::prelude::*;

use crate::chunks::Chunks;
use crate::particle::Particle;

verus! {

/// Rebuilds the grid from the particles' current positions and groups.
pub fn sort_into_chunks(chunks: &mut Chunks, particles: &Vec<Particle>)
    requires
        old(chunks).wf(),
    ensures
        final(chunks).wf(),
        final(chunks).same_shape(old(chunks)),
        final(chunks).cells() == old(chunks).filled(particles@),
        final(chunks).cells() == final(chunks).filled(particles@),
{
    chunks.clear();
    let n = particles.len();
    let mut i: usize = 0;
    while i < n
        invariant
            i <= n,
            n == particles@.len(),
            chunks.wf(),
            chunks.same_shape(old(chunks)),
            chunks.cells() == old(chunks).filled(particles@.take(i as int)),
        decreases n - i,
    {
        let p = particles[i];
        chunks.insert_particle(p.position, p.group_id);
        proof {
            let next = particles@.take(i + 1);
            assert(next.drop_last() =~= particles@.take(i as int));
            assert(next.last() == p);
        }
        i += 1;
    }
    assert(particles@.take(n as int) =~= particles@);
    proof {
        lemma_filled_shape(chunks, old(chunks), particles@);
    }
}

/// Filling keeps every entry's group below `n` when every particle's is.
pub proof fn lemma_filled_groups(c: &Chunks, ps: Seq<Particle>, n: nat)
    requires
        forall|i: int| 0 <= i < ps.len() ==> (#[trigger] ps[i]).group_id.0 < n,
    ensures
        c.filled(ps).len() == c.width * c.height,
        forall|j: int, k: int|
            0 <= j < c.filled(ps).len() && 0 <= k < c.filled(ps)[j].len() ==> (#[trigger] c.filled(ps)[j][k]).1.0 < n,
    decreases ps.len(),
{
    if ps.len() > 0 {
        let prev = ps.drop_last();
        assert forall|i: int| 0 <= i < prev.len() implies (#[trigger] prev[i]).group_id.0 < n by {
            assert(prev[i] == ps[i]);
        }
        lemma_filled_groups(c, prev, n);
        assert(ps.last() == ps[ps.len() - 1]);
        if c.has_cells() {
            let pc = ps.last().position.0;
            assert(0 <= c.cell_x(pc.x as int) < c.width);
            assert(0 <= c.cell_y(pc.y as int) < c.height);
            let cx = c.cell_x(pc.x as int);
            let cy = c.cell_y(pc.y as int);
            assert(0 <= cx + cy * c.width < c.width * c.height) by (nonlinear_arith)
                requires
                    0 <= cx < c.width,
                    0 <= cy < c.height,
            ;
        }
    }
}

/// Filling depends on the grid's shape alone.
proof fn lemma_filled_shape(a: &Chunks, b: &Chunks, ps: Seq<Particle>)
    requires
        a.same_shape(b),
    ensures
        a.filled(ps) == b.filled(ps),
    decreases ps.len(),
{
    if ps.len() > 0 {
        lemma_filled_shape(a, b, ps.drop_last());
    }
}

/// Rebuilding the grid a second time from unchanged particles leaves it as
/// the first rebuild left it.
pub proof fn lemma_rebuild_idempotent(before: &Chunks, once: &Chunks, twice: &Chunks, ps: Seq<Particle>)
    requires
        once.same_shape(before),
        once.cells() == before.filled(ps),
        twice.same_shape(once),
        twice.cells() == once.filled(ps),
    ensures
        twice.same_shape(once),
        twice.cells() == once.cells(),
{
    lemma_filled_shape(once, before, ps);
}

} // verus!
