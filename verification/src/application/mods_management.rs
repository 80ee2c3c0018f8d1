//! How the launcher reacts to what happens to the mods: the user's actions in
//! the mods screens, and the results of the work done on the disk. The work
//! itself (scanning a package, installing, uninstalling, opening a directory)
//! is described by the command returned, and done by the caller.
use vstd::prelude::*;
use crate::application::message::{AddViewMessage, ListViewMessage, ModsMessage};
use crate::application::mods::{
    InstallView, ModInfo, ModInfoView, ModName, Source, mods_added, name_views, package_views,
    packages_found,
};
use crate::application::paths::DirPath;
use crate::application::screens::{AddModView, Screens, url_changed, url_parse_failure};
use crate::application::teamwork_launcher::TeamworkLauncher;
use crate::application::views::popped;
use crate::ordered_map::OrderedKey;
use crate::text::text_equal;

verus! {

/// The work to do on the disk or in the window after a mods message.
#[derive(Debug)]
pub enum ModsCommand {
    Nothing,
    /// Give the keyboard to the download URL field.
    FocusDownloadUrl,
    /// Find the names of the mods in the package at this source.
    ScanPackage(Source),
    Install { source: Source, name: ModName, mods_directory: DirPath },
    Uninstall { name: ModName, package_path: DirPath, mods_directory: DirPath },
    /// Show this directory in the file manager.
    OpenDirectory(DirPath),
}

/// The form on top of the views, when the view on top is the form that adds mods.
pub open spec fn add_mod_form(views: Seq<Screens>) -> Option<AddModView> {
    if views.len() == 0 {
        None
    } else {
        match views.last() {
            Screens::AddMod(form) => Some(form),
            _ => None,
        }
    }
}

/// The views with the form on top replaced by `form`.
pub open spec fn with_form(views: Seq<Screens>, form: AddModView) -> Seq<Screens> {
    views.update(views.len() - 1, Screens::AddMod(form))
}

/// The command that uninstalls the mod described by `info` from `mods_directory`:
/// nothing when the mod is not installed.
pub open spec fn uninstall_command(info: ModInfoView, mods_directory: Seq<Seq<char>>, command: ModsCommand) -> bool {
    match info.install {
        InstallView::Installed { package, .. } => command matches ModsCommand::Uninstall {
            name,
            package_path,
            mods_directory: d,
        } && name@ == info.name && package_path@ == package.path && d@ == mods_directory,
        InstallView::NotInstalled => command is Nothing,
    }
}

pub open spec fn directory_view(d: Option<DirPath>) -> Option<Seq<Seq<char>>> {
    match d {
        Some(p) => Some(p@),
        None => None,
    }
}

/// The launcher is the same but for its views, its mods, the mod selected and
/// whether mods are being worked on.
pub open spec fn same_but_mods(before: TeamworkLauncher, after: TeamworkLauncher) -> bool {
    after == (TeamworkLauncher {
        views: after.views,
        mods_registry: after.mods_registry,
        selected_mod: after.selected_mod,
        is_loading_mods: after.is_loading_mods,
        ..before
    })
}

/// A message that the launcher can take: a mod is installed only when it is
/// not, and uninstalled only when it is.
pub open spec fn mods_message_allowed(
    launcher: TeamworkLauncher,
    message: ModsMessage,
    mods_directory: Option<DirPath>,
) -> bool {
    match message {
        ModsMessage::Install(name) => launcher.mods_registry@.contains_key(name.key_model())
            && mods_directory is Some ==> launcher.mods_registry@[name.key_model()].install is NotInstalled,
        ModsMessage::Uninstall(name) => launcher.mods_registry@.contains_key(name.key_model())
            && mods_directory is Some ==> launcher.mods_registry@[name.key_model()].install is Installed,
        _ => true,
    }
}

/// What a message of the form that adds mods does.
pub open spec fn add_view_processed(
    before: TeamworkLauncher,
    after: TeamworkLauncher,
    message: AddViewMessage,
    command: ModsCommand,
) -> bool {
    &&& same_but_mods(before, after)
    &&& after.mods_registry@ == before.mods_registry@
    &&& after.selected_mod == before.selected_mod
    &&& after.is_loading_mods == before.is_loading_mods
    &&& match message {
        AddViewMessage::Show => {
            &&& after.views@.len() == before.views@.len() + 1
            &&& after.views@.drop_last() == before.views@
            &&& after.views@.last() matches Screens::AddMod(form) && form.download_url@.len() == 0
                && !form.is_form_valid && form.error is None && !form.scanning
            &&& command is FocusDownloadUrl
        },
        AddViewMessage::DownloadUrlChanged(url) => {
            &&& command is Nothing
            &&& match add_mod_form(before.views@) {
                Some(form) => after.views@.len() == before.views@.len() && (add_mod_form(after.views@) matches Some(
                    changed,
                ) && after.views@ == with_form(before.views@, changed) && url_changed(
                    form,
                    changed,
                    url@,
                    url_parse_failure(url@),
                )),
                None => after.views@ == before.views@,
            }
        },
        AddViewMessage::ScanPackageToAdd(source) => match add_mod_form(before.views@) {
            Some(form) => {
                &&& after.views@ == with_form(before.views@, AddModView { error: None, scanning: true, ..form })
                &&& command matches ModsCommand::ScanPackage(s) && s@ == source@
            },
            None => after.views@ == before.views@ && command is Nothing,
        },
    }
}

/// What a message of the list of mods does.
pub open spec fn list_view_processed(
    before: TeamworkLauncher,
    after: TeamworkLauncher,
    message: ListViewMessage,
    mods_directory: Option<DirPath>,
    command: ModsCommand,
) -> bool {
    &&& same_but_mods(before, after)
    &&& after.views == before.views
    &&& after.is_loading_mods == before.is_loading_mods
    &&& match message {
        ListViewMessage::ModClicked(name) => {
            &&& after.selected_mod matches Some(n) && n@ == name@
            &&& after.mods_registry@ == before.mods_registry@
            &&& command is Nothing
        },
        ListViewMessage::RemoveMod(name) => {
            let key = name.key_model();
            &&& if before.selected_mod matches Some(s) && s@ == name@ {
                after.selected_mod is None
            } else {
                after.selected_mod == before.selected_mod
            }
            &&& after.mods_registry@ == before.mods_registry@.remove(key)
            &&& if before.mods_registry@.contains_key(key) && mods_directory is Some {
                uninstall_command(before.mods_registry@[key], mods_directory->0@, command)
            } else {
                command is Nothing
            }
        },
    }
}

/// What a message on the mods does.
pub open spec fn mods_processed(
    before: TeamworkLauncher,
    after: TeamworkLauncher,
    message: ModsMessage,
    mods_directory: Option<DirPath>,
    command: ModsCommand,
) -> bool {
    match message {
        ModsMessage::AddView(m) => add_view_processed(before, after, m, command),
        ModsMessage::ListView(m) => list_view_processed(before, after, m, mods_directory, command),
        _ => {
            &&& same_but_mods(before, after)
            &&& after.selected_mod == before.selected_mod
            &&& match message {
                ModsMessage::AddMods(source, names) => {
                    &&& after.mods_registry@ == mods_added(
                        before.mods_registry@,
                        name_views(names@),
                        source@,
                    )
                    &&& after.views@ == if add_mod_form(before.views@) is Some {
                        popped(before.views@)
                    } else {
                        before.views@
                    }
                    &&& after.is_loading_mods == before.is_loading_mods
                    &&& command is Nothing
                },
                ModsMessage::Error(_title, error) => {
                    &&& after.mods_registry@ == before.mods_registry@
                    &&& !after.is_loading_mods
                    &&& after.views@ == match add_mod_form(before.views@) {
                        Some(form) => with_form(
                            before.views@,
                            AddModView { error: Some(error), scanning: false, ..form },
                        ),
                        None => before.views@,
                    }
                    &&& command is Nothing
                },
                ModsMessage::Install(name) => {
                    let key = name.key_model();
                    &&& after.mods_registry@ == before.mods_registry@
                    &&& after.views == before.views
                    &&& if before.mods_registry@.contains_key(key) && mods_directory is Some {
                        &&& after.is_loading_mods
                        &&& command matches ModsCommand::Install { source, name: n, mods_directory: d }
                            && source@ == before.mods_registry@[key].source && n@ == name@ && d@
                            == mods_directory->0@
                    } else {
                        after.is_loading_mods == before.is_loading_mods && command is Nothing
                    }
                },
                ModsMessage::Uninstall(name) => {
                    let key = name.key_model();
                    &&& after.mods_registry@ == before.mods_registry@
                    &&& after.views == before.views
                    &&& if before.mods_registry@.contains_key(key) && mods_directory is Some {
                        &&& after.is_loading_mods
                        &&& uninstall_command(before.mods_registry@[key], mods_directory->0@, command)
                    } else {
                        after.is_loading_mods == before.is_loading_mods && command is Nothing
                    }
                },
                ModsMessage::OpenInstallDirectory(name) => {
                    let key = name.key_model();
                    &&& after.mods_registry@ == before.mods_registry@
                    &&& after.views == before.views
                    &&& after.is_loading_mods == before.is_loading_mods
                    &&& if before.mods_registry@.contains_key(key) && before.mods_registry@[key].install is Installed {
                        command matches ModsCommand::OpenDirectory(d) && d@
                            == before.mods_registry@[key].install->package.path
                    } else {
                        command is Nothing
                    }
                },
                ModsMessage::InstallationFinished(name, install) => {
                    let key = name.key_model();
                    &&& after.mods_registry@ == if before.mods_registry@.contains_key(key) {
                        before.mods_registry@.insert(
                            key,
                            ModInfoView { install: install@, ..before.mods_registry@[key] },
                        )
                    } else {
                        before.mods_registry@
                    }
                    &&& after.views == before.views
                    &&& !after.is_loading_mods
                    &&& command is Nothing
                },
                ModsMessage::UninstallationFinished(name) => {
                    let key = name.key_model();
                    &&& after.mods_registry@ == if before.mods_registry@.contains_key(key) {
                        before.mods_registry@.insert(
                            key,
                            ModInfoView { install: InstallView::NotInstalled, ..before.mods_registry@[key] },
                        )
                    } else {
                        before.mods_registry@
                    }
                    &&& after.views == before.views
                    &&& !after.is_loading_mods
                    &&& command is Nothing
                },
                ModsMessage::FoundInstalledMods(packages) => {
                    &&& exists|times: Seq<nat>| times.len() == packages@.len()
                        && after.mods_registry@ == packages_found(
                        before.mods_registry@,
                        package_views(packages@),
                        times,
                    )
                    &&& after.views == before.views
                    &&& after.is_loading_mods == before.is_loading_mods
                    &&& command is Nothing
                },
                _ => true,
            }
        },
    }
}

impl TeamworkLauncher {
    /// Reacts to a message on the mods, given the directory where mods are
    /// installed when the game is found; returns the work to do.
    pub fn process_mods_message(&mut self, message: ModsMessage, mods_directory: Option<DirPath>) -> (command:
        ModsCommand)
        requires
            old(self).wf(),
            mods_message_allowed(*old(self), message, mods_directory),
        ensures
            final(self).wf(),
            mods_processed(*old(self), *final(self), message, mods_directory, command),
    {
        let ghost message_view = message;
        let ghost directory_view = mods_directory;
        match message {
            ModsMessage::AddView(message) => self.process_add_view_message(message),
            ModsMessage::ListView(message) => self.process_list_view_message(message, mods_directory),
            ModsMessage::AddMods(source, mod_names) => {
                self.mods_registry.add_all(&source, mod_names);
                let on_form = match self.views.current() {
                    Some(Screens::AddMod(_)) => true,
                    _ => false,
                };
                if on_form {
                    self.views.pop();
                }
                ModsCommand::Nothing
            },
            ModsMessage::Error(_title, error) => {
                self.is_loading_mods = false;
                self.show_mods_error(error);
                ModsCommand::Nothing
            },
            ModsMessage::Install(mod_name) => self.install_mod(mod_name, mods_directory),
            ModsMessage::Uninstall(mod_name) => self.uninstall_mod(mod_name, mods_directory),
            ModsMessage::InstallationFinished(mod_name, install) => {
                self.mods_registry.set_install(&mod_name, install);
                self.is_loading_mods = false;
                ModsCommand::Nothing
            },
            ModsMessage::UninstallationFinished(mod_name) => {
                self.mods_registry.set_install(&mod_name, crate::application::mods::Install::NotInstalled);
                self.is_loading_mods = false;
                ModsCommand::Nothing
            },
            ModsMessage::FoundInstalledMods(packages) => {
                self.mods_registry.record_found(packages);
                ModsCommand::Nothing
            },
            ModsMessage::OpenInstallDirectory(mod_name) => match self.mods_registry.get(&mod_name) {
                Some(info) => match &info.install {
                    crate::application::mods::Install::Installed { package, .. } => ModsCommand::OpenDirectory(
                        package.path.clone(),
                    ),
                    crate::application::mods::Install::NotInstalled => ModsCommand::Nothing,
                },
                None => ModsCommand::Nothing,
            },
        }
    }

    /// Shows the error in the form that adds mods, if it is on top, and stops
    /// its scan.
    fn show_mods_error(&mut self, error: String)
        requires
            old(self).wf(),
        ensures
            final(self).wf(),
            same_but_mods(*old(self), *final(self)),
            final(self).mods_registry == old(self).mods_registry,
            final(self).selected_mod == old(self).selected_mod,
            final(self).is_loading_mods == old(self).is_loading_mods,
            final(self).views@ == match add_mod_form(old(self).views@) {
                Some(form) => with_form(old(self).views@, AddModView { error: Some(error), scanning: false, ..form }),
                None => old(self).views@,
            },
    {
        match self.views.current_mut() {
            Some(Screens::AddMod(context)) => {
                context.error = Some(error);
                context.scanning = false;
            },
            _ => {},
        }
    }

    fn install_mod(&mut self, mod_name: ModName, mods_directory: Option<DirPath>) -> (command: ModsCommand)
        requires
            old(self).wf(),
            old(self).mods_registry@.contains_key(mod_name.key_model()) && mods_directory is Some
                ==> old(self).mods_registry@[mod_name.key_model()].install is NotInstalled,
        ensures
            final(self).wf(),
            mods_processed(*old(self), *final(self), ModsMessage::Install(mod_name), mods_directory, command),
    {
        match self.mods_registry.get(&mod_name) {
            Some(info) => match mods_directory {
                Some(directory) => {
                    let source = info.source.clone();
                    self.is_loading_mods = true;
                    ModsCommand::Install { source, name: mod_name, mods_directory: directory }
                },
                None => ModsCommand::Nothing,
            },
            None => ModsCommand::Nothing,
        }
    }

    fn uninstall_mod(&mut self, mod_name: ModName, mods_directory: Option<DirPath>) -> (command: ModsCommand)
        requires
            old(self).wf(),
            old(self).mods_registry@.contains_key(mod_name.key_model()) && mods_directory is Some
                ==> old(self).mods_registry@[mod_name.key_model()].install is Installed,
        ensures
            final(self).wf(),
            mods_processed(*old(self), *final(self), ModsMessage::Uninstall(mod_name), mods_directory, command),
    {
        match self.mods_registry.get(&mod_name) {
            Some(info) => match mods_directory {
                Some(directory) => {
                    let command = uninstall_command_of(info, directory);
                    self.is_loading_mods = true;
                    command
                },
                None => ModsCommand::Nothing,
            },
            None => ModsCommand::Nothing,
        }
    }

    fn process_add_view_message(&mut self, message: AddViewMessage) -> (command: ModsCommand)
        requires
            old(self).wf(),
        ensures
            final(self).wf(),
            add_view_processed(*old(self), *final(self), message, command),
    {
        match message {
            AddViewMessage::Show => {
                self.views.push(Screens::AddMod(AddModView::default()));
                assert(self.views@.drop_last() =~= old(self).views@);
                ModsCommand::FocusDownloadUrl
            },
            AddViewMessage::DownloadUrlChanged(url) => {
                let ghost url_view = url@;
                match self.views.current_mut() {
                    Some(Screens::AddMod(context)) => {
                        context.change_download_url(url);
                    },
                    _ => {},
                }
                proof {
                    if add_mod_form(old(self).views@) is None {
                        assert(self.views@ =~= old(self).views@);
                    }
                }
                ModsCommand::Nothing
            },
            AddViewMessage::ScanPackageToAdd(source) => {
                let on_form = match self.views.current_mut() {
                    Some(Screens::AddMod(context)) => {
                        context.error = None;
                        context.scanning = true;
                        true
                    },
                    _ => false,
                };
                proof {
                    if add_mod_form(old(self).views@) is None {
                        assert(self.views@ =~= old(self).views@);
                    }
                }
                if on_form {
                    ModsCommand::ScanPackage(source)
                } else {
                    ModsCommand::Nothing
                }
            },
        }
    }

    fn process_list_view_message(&mut self, message: ListViewMessage, mods_directory: Option<DirPath>) -> (command:
        ModsCommand)
        requires
            old(self).wf(),
        ensures
            final(self).wf(),
            list_view_processed(*old(self), *final(self), message, mods_directory, command),
    {
        match message {
            ListViewMessage::ModClicked(mod_name) => {
                self.selected_mod = Some(mod_name);
                ModsCommand::Nothing
            },
            ListViewMessage::RemoveMod(mod_name) => {
                let unselect = match &self.selected_mod {
                    Some(selected) => text_equal(selected.as_str(), mod_name.as_str()),
                    None => false,
                };
                if unselect {
                    self.selected_mod = None;
                }
                match self.mods_registry.remove(&mod_name) {
                    Some(info) => match mods_directory {
                        Some(directory) => uninstall_command_of(&info, directory),
                        None => ModsCommand::Nothing,
                    },
                    None => ModsCommand::Nothing,
                }
            },
        }
    }
}

/// The command that uninstalls the mod described by `info` from `mods_directory`.
fn uninstall_command_of(info: &ModInfo, mods_directory: DirPath) -> (command: ModsCommand)
    ensures
        uninstall_command(info@, mods_directory@, command),
{
    match &info.install {
        crate::application::mods::Install::Installed { package, .. } => ModsCommand::Uninstall {
            name: info.name.clone(),
            package_path: package.path.clone(),
            mods_directory,
        },
        crate::application::mods::Install::NotInstalled => ModsCommand::Nothing,
    }
}

} // verus!
