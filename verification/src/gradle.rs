//! The build script of the project.

use vstd::prelude::*;

verus! {

/// The decimal digit for `d`, which is below ten.
pub open spec fn digit(d: nat) -> char {
    seq!['0', '1', '2', '3', '4', '5', '6', '7', '8', '9'][d as int]
}

/// `n` written in decimal, without leading zeros.
pub open spec fn decimal(n: nat) -> Seq<char>
    decreases n,
{
    if n < 10 {
        seq![digit(n)]
    } else {
        decimal(n / 10).push(digit(n % 10))
    }
}

/// The start of every build script: the plugins, and every file in
/// `runs/libraries` as a dependency.
pub open spec fn plugins_and_dependencies() -> Seq<char> {
    "apply plugin: 'java'\n"@
        + "apply plugin: 'application'\n"@
        + "dependencies {\n"@
        + "    implementation fileTree('runs/libraries')\n"@
        + "}\n"@
}

/// The two lines that set the Java version of the sources and of the classes
/// to `java_version`.
pub open spec fn compatibility(java_version: u64) -> Seq<char> {
    "sourceCompatibility = "@
        + decimal(java_version as nat)
        + "\n"@
        + "targetCompatibility = "@
        + decimal(java_version as nat)
        + "\n"@
}

/// The end of every build script: the task `runClient`, which starts the
/// class `Start` in the directory `runs`, with the native libraries looked
/// for in `libraries`.
pub open spec fn run_client_task() -> Seq<char> {
    "task runClient(type: JavaExec) {\n"@
        + "    main = 'Start'\n"@
        + "    classpath = sourceSets.main.runtimeClasspath\n"@
        + "    jvmArgs = [\"-Djava.library.path=libraries\"]\n"@
        + "    workingDir = file('runs')\n"@
        + "}\n"@
}

/// The build script of a project that runs the game on Java `java_version`.
pub open spec fn gradle_script(java_version: u64) -> Seq<char> {
    plugins_and_dependencies() + compatibility(java_version) + run_client_task()
}

fn digit_text(d: u64) -> (text: &'static str)
    requires
        d < 10,
    ensures
        text@ == seq![digit(d as nat)],
{
    proof {
        reveal_strlit("0");
        reveal_strlit("1");
        reveal_strlit("2");
        reveal_strlit("3");
        reveal_strlit("4");
        reveal_strlit("5");
        reveal_strlit("6");
        reveal_strlit("7");
        reveal_strlit("8");
        reveal_strlit("9");
    }
    let text = match d {
        0 => "0",
        1 => "1",
        2 => "2",
        3 => "3",
        4 => "4",
        5 => "5",
        6 => "6",
        7 => "7",
        8 => "8",
        _ => "9",
    };
    assert(text@ =~= seq![digit(d as nat)]);
    text
}

/// `n` written in decimal: see [`decimal`].
pub fn decimal_string(n: u64) -> (text: String)
    ensures
        text@ == decimal(n as nat),
    decreases n,
{
    if n < 10 {
        digit_text(n).to_owned()
    } else {
        let mut text = decimal_string(n / 10);
        text.append(digit_text(n % 10));
        text
    }
}

/// The build script of a project that runs the game on Java `java_version`:
/// see [`gradle_script`].
pub fn build_gradle_script(java_version: u64) -> (script: String)
    ensures
        script@ == gradle_script(java_version),
{
    let version = decimal_string(java_version);
    let mut script = String::new();
    script.append("apply plugin: 'java'\n");
    script.append("apply plugin: 'application'\n");
    script.append("dependencies {\n");
    script.append("    implementation fileTree('runs/libraries')\n");
    script.append("}\n");
    assert(script@ =~= plugins_and_dependencies());
    let ghost head = script@;
    script.append("sourceCompatibility = ");
    script.append(version.as_str());
    script.append("\n");
    script.append("targetCompatibility = ");
    script.append(version.as_str());
    script.append("\n");
    assert(script@ =~= head + compatibility(java_version));
    let ghost body = script@;
    script.append("task runClient(type: JavaExec) {\n");
    script.append("    main = 'Start'\n");
    script.append("    classpath = sourceSets.main.runtimeClasspath\n");
    script.append("    jvmArgs = [\"-Djava.library.path=libraries\"]\n");
    script.append("    workingDir = file('runs')\n");
    script.append("}\n");
    assert(script@ =~= body + run_client_task());
    script
}

} // verus!
