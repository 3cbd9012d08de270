use vstd::prelude::*;

verus! {

/// Tracks what a split has created on disk so far — the output directory
/// and each chunk file, in creation order — and decides, when the split
/// fails, what must be deleted so that nothing of it remains.
pub struct CleanupGuard {
    /// The output directory the split created.
    pub dir: String,
    /// The chunk files created so far, in creation order.
    pub created: Vec<String>,
}

impl CleanupGuard {
    /// Starts guarding a freshly created output directory, with no chunk
    /// files recorded yet.
    pub fn new(dir: String) -> (g: CleanupGuard)
        ensures
            g.dir == dir,
            g.created@ == Seq::<String>::empty(),
    {
        CleanupGuard { dir, created: Vec::new() }
    }

    /// Records one more created chunk file, including one whose write
    /// failed midway.
    pub fn record(&mut self, path: String)
        ensures
            final(self).dir == old(self).dir,
            final(self).created@ == old(self).created@.push(path),
    {
        self.created.push(path);
    }

    /// The deletion list for a failed split: every recorded chunk file, in
    /// creation order, and then the — by then empty — output directory.
    pub fn cleanup_targets(self) -> (r: Vec<String>)
        ensures
            r@ == self.created@.push(self.dir),
    {
        let mut r = self.created;
        r.push(self.dir);
        r
    }
}

/// Cleanup after a failure leaves nothing behind: the deletion list holds
/// every chunk file the guard recorded, in creation order, and after all of
/// them the output directory itself, so deleting the targets in list order
/// removes everything the failed split created.
pub proof fn lemma_cleanup_is_complete(g: CleanupGuard)
    ensures
        g.created@.push(g.dir).len() == g.created@.len() + 1,
        forall|i: int|
            0 <= i < g.created@.len() ==> g.created@.push(g.dir)[i] == g.created@[i],
        g.created@.push(g.dir).last() == g.dir,
{
}

} // verus!
