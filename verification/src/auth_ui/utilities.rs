//! A short, hand-written stand-in for a compiled sheet of the design system: some
//! tokens, and some of the utilities that these pages draw with.

use vstd::prelude::*;

verus! {

/// The tokens first, then the utility classes listed here, each in its own layer
/// so that the pages' own rules win over both. It is a stand-in: a sheet compiled
/// from the design system holds more of either.
pub const UTILITIES: &'static str = r#"@layer theme, base, components, utilities;
@layer theme {
  :root {
    --background: #0b0b0e;
    --foreground: #ededf1;
    --card: #131318;
    --card-foreground: #ededf1;
    --primary: #ededf1;
    --primary-foreground: #0b0b0e;
    --muted: #1c1c22;
    --muted-foreground: #a1a1ab;
    --destructive: #ff5d5d;
    --border: #26262e;
    --radius: 0.5rem;
  }
}
@layer utilities {
  .flex { display: flex; }
  .inline-flex { display: inline-flex; }
  .grid { display: grid; }
  .items-center { align-items: center; }
  .justify-between { justify-content: space-between; }
  .gap-2 { gap: 0.5rem; }
  .gap-4 { gap: 1rem; }
  .rounded-lg { border-radius: var(--radius); }
  .border { border: 1px solid var(--border); }
  .bg-background { background-color: var(--background); }
  .bg-card { background-color: var(--card); }
  .bg-primary { background-color: var(--primary); }
  .bg-destructive { background-color: var(--destructive); }
  .text-foreground { color: var(--foreground); }
  .text-primary-foreground { color: var(--primary-foreground); }
  .text-muted-foreground { color: var(--muted-foreground); }
  .text-sm { font-size: 0.875rem; }
  .font-medium { font-weight: 500; }
}"#;

} // verus!
